use crate::constants::MIN_LEVEL;
use vstd::arithmetic::power::pow;
use vstd::prelude::*;

verus! {

/// Bound on the magnitude of every intermediate of the exact computation of
/// a value, so that it can be carried out in `i128`.
pub const EXACT_LIMIT: i128 = 0x2000_0000_0000_0000_0000_0000_0000_0000;

/// How a stat grows with the level of its owner.
#[derive(Clone, Copy, Debug, PartialEq, Eq, Structural)]
pub enum LevelScaling {
    NoScaling,
    /// Adds this much per level.
    Linear(i32),
    /// Multiplies by this many thousandths raised to the power
    /// `level - MIN_LEVEL + 1`.
    Exponential(u32),
}

#[derive(Clone, Copy, Debug, PartialEq, Eq, Structural)]
pub enum Proficiency {
    Extreme,
    High,
    Moderate,
    Low,
    Terrible,
}

pub open spec fn clamp_i32(v: int) -> int {
    if v < i32::MIN {
        i32::MIN as int
    } else if v > i32::MAX {
        i32::MAX as int
    } else {
        v
    }
}

/// Division rounding toward zero.
pub open spec fn trunc_div(a: int, b: int) -> int {
    if a >= 0 {
        a / b
    } else {
        -((-a) / b)
    }
}

/// `v` multiplied `n` times by `base` thousandths, truncated and clamped to
/// `i32` after each step.
pub open spec fn compound(v: int, base: int, n: int) -> int
    decreases n,
{
    if n <= 0 {
        v
    } else {
        compound(clamp_i32(trunc_div(v * base, 1000)), base, n - 1)
    }
}

pub open spec fn sum_additive(s: Seq<(u128, i32)>) -> int
    decreases s.len(),
{
    if s.len() == 0 {
        0
    } else {
        sum_additive(s.drop_last()) + s.last().1
    }
}

pub open spec fn product_factors(s: Seq<(u128, u32)>) -> int
    decreases s.len(),
{
    if s.len() == 0 {
        1
    } else {
        product_factors(s.drop_last()) * s.last().1
    }
}

pub open spec fn pow1000(n: nat) -> int
    decreases n,
{
    if n == 0 {
        1
    } else {
        pow1000((n - 1) as nat) * 1000
    }
}

proof fn lemma_pow1000_increases(a: nat, b: nat)
    requires
        a <= b,
    ensures
        pow1000(a) <= pow1000(b),
        0 < pow1000(a),
    decreases b,
{
    if a < b {
        lemma_pow1000_increases(a, (b - 1) as nat);
    } else if a > 0 {
        lemma_pow1000_increases((a - 1) as nat, (a - 1) as nat);
    }
}

proof fn lemma_compound_fixed(v: int, base: int, n: int)
    requires
        clamp_i32(trunc_div(v * base, 1000)) == v,
    ensures
        compound(v, base, n) == v,
    decreases n,
{
    if n > 0 {
        lemma_compound_fixed(v, base, n - 1);
    }
}

/// `v` multiplied by each factor in turn, in thousandths, rounded toward
/// zero and clamped to `i32` after each.
pub open spec fn apply_factors(v: int, factors: Seq<(u128, u32)>) -> int
    decreases factors.len(),
{
    if factors.len() == 0 {
        v
    } else {
        clamp_i32(trunc_div(apply_factors(v, factors.drop_last()) * factors.last().1, 1000))
    }
}

/// Exact `v * factor / 1000`, rounded toward zero and clamped to `i32`.
fn scale_step(v: i32, factor: u32) -> (r: i32)
    ensures
        r == clamp_i32(trunc_div(v * factor, 1000)),
{
    proof {
        let vi = v as int;
        let fi = factor as int;
        assert(-0x1_0000_0000_0000_0000 <= vi * fi <= 0x1_0000_0000_0000_0000) by (nonlinear_arith)
            requires
                -0x8000_0000 <= vi < 0x8000_0000,
                0 <= fi < 0x1_0000_0000,
        ;
    }
    let x: i128 = v as i128 * factor as i128;
    let q: i128 = if x >= 0 {
        x / 1000
    } else {
        -((-x) / 1000)
    };
    clamp_to_i32(q)
}

fn clamp_to_i32(v: i128) -> (r: i32)
    ensures
        r == clamp_i32(v as int),
{
    if v < i32::MIN as i128 {
        i32::MIN
    } else if v > i32::MAX as i128 {
        i32::MAX
    } else {
        v as i32
    }
}

pub open spec fn keys_unique<T>(s: Seq<(u128, T)>) -> bool {
    forall|i: int, j: int| #![trigger s[i], s[j]] 0 <= i < j < s.len() ==> s[i].0 != s[j].0
}

pub open spec fn has_key<T>(s: Seq<(u128, T)>, id: u128) -> bool {
    exists|i: int| 0 <= i < s.len() && s[i].0 == id
}

/// `s` with the entry for `id` set to `v`: replaced in place if present,
/// appended otherwise.
pub open spec fn upsert<T>(s: Seq<(u128, T)>, id: u128, v: T) -> Seq<(u128, T)> {
    if has_key(s, id) {
        s.update(choose|i: int| 0 <= i < s.len() && s[i].0 == id, (id, v))
    } else {
        s.push((id, v))
    }
}

/// `s` without the entry for `id`.
pub open spec fn remove_key<T>(s: Seq<(u128, T)>, id: u128) -> Seq<(u128, T)> {
    if has_key(s, id) {
        s.remove(choose|i: int| 0 <= i < s.len() && s[i].0 == id)
    } else {
        s
    }
}

fn find_key<T>(v: &Vec<(u128, T)>, id: u128) -> (r: Option<usize>)
    requires
        keys_unique(v@),
    ensures
        r.is_some() == has_key(v@, id),
        r matches Some(i) ==> i < v@.len() && i == (choose|j: int| 0 <= j < v@.len() && v@[j].0 == id),
{
    let mut i: usize = 0;
    while i < v.len()
        invariant
            keys_unique(v@),
            0 <= i <= v@.len(),
            forall|j: int| 0 <= j < i ==> v@[j].0 != id,
        decreases v@.len() - i,
    {
        if v[i].0 == id {
            let ghost c = choose|j: int| 0 <= j < v@.len() && v@[j].0 == id;
            proof {
                assert(v@[c].0 == id);
                if c < i {
                    assert(v@[c].0 != v@[i as int].0);
                } else if c > i {
                    assert(v@[i as int].0 != v@[c].0);
                }
            }
            return Some(i);
        }
        i = i + 1;
    }
    None
}

/// A numeric attribute: a raw value scaled by level, plus additive
/// modifiers, times multiplicative modifiers (in thousandths). Modifiers are
/// keyed by the id of their source.
#[derive(Clone, Debug)]
pub struct Stat {
    raw_value: i32,
    level_scaling: LevelScaling,
    additive_modifiers: Vec<(u128, i32)>,
    multiplicative_modifiers: Vec<(u128, u32)>,
}

impl Stat {
    pub closed spec fn spec_raw(&self) -> int {
        self.raw_value as int
    }

    pub closed spec fn spec_scaling(&self) -> LevelScaling {
        self.level_scaling
    }

    pub closed spec fn additive(&self) -> Seq<(u128, i32)> {
        self.additive_modifiers@
    }

    pub closed spec fn multiplicative(&self) -> Seq<(u128, u32)> {
        self.multiplicative_modifiers@
    }

    pub open spec fn wf(&self) -> bool {
        keys_unique(self.additive()) && keys_unique(self.multiplicative())
    }

    /// Exponent of the exponential scaling at `level`.
    pub open spec fn exponent(level: int) -> int {
        level - MIN_LEVEL + 1
    }

    /// The raw value scaled by `level`, as a numerator and a positive
    /// denominator.
    pub open spec fn scaled_parts(&self, level: int) -> (int, int) {
        match self.spec_scaling() {
            LevelScaling::NoScaling => (self.spec_raw(), 1),
            LevelScaling::Linear(inc) => (self.spec_raw() + level * inc, 1),
            LevelScaling::Exponential(base) => {
                let n = Self::exponent(level);
                if n >= 0 {
                    (self.spec_raw() * pow(base as int, n as nat), pow(1000, n as nat))
                } else if base > 0 {
                    (self.spec_raw() * pow(1000, (-n) as nat), pow(base as int, (-n) as nat))
                } else {
                    // A zero base has no negative powers.
                    (0, 1)
                }
            },
        }
    }

    /// The raw value scaled by `level`, rounded toward zero, clamped to `i32`.
    pub open spec fn scaled_value(&self, level: int) -> int {
        clamp_i32(trunc_div(self.scaled_parts(level).0, self.scaled_parts(level).1))
    }

    /// `(scaled + sum of additive) * product of factors / 1000^k`, computed
    /// exactly, rounded toward zero once and clamped to `i32`.
    pub open spec fn value(&self, level: int) -> int {
        let sn = self.scaled_parts(level).0;
        let sd = self.scaled_parts(level).1;
        clamp_i32(
            trunc_div(
                (sn + sum_additive(self.additive()) * sd) * product_factors(self.multiplicative()),
                sd * pow1000(self.multiplicative().len()),
            ),
        )
    }

    /// The scaled raw value compounded level by level, clamped to `i32`.
    pub open spec fn compounded_value(&self, level: int) -> int {
        match self.spec_scaling() {
            LevelScaling::NoScaling => self.spec_raw(),
            LevelScaling::Linear(inc) => clamp_i32(self.spec_raw() + level * inc),
            LevelScaling::Exponential(base) => compound(self.spec_raw(), base as int, Self::exponent(level)),
        }
    }

    /// What `get_value` returns: the exact value where it fits in the
    /// computation, else the scaled value compounded level by level, plus the
    /// additive modifiers, times each factor in turn.
    pub open spec fn effective_value(&self, level: int) -> int {
        if self.value_fits(level) {
            self.value(level)
        } else {
            apply_factors(
                clamp_i32(self.compounded_value(level) + sum_additive(self.additive())),
                self.multiplicative(),
            )
        }
    }

    /// What `get_value_without_modifiers` returns.
    pub open spec fn effective_scaled_value(&self, level: int) -> int {
        if self.scaled_fits(level) {
            self.scaled_value(level)
        } else {
            self.compounded_value(level)
        }
    }

    /// Every power and product that `scaled_parts` takes stays within
    /// `EXACT_LIMIT`.
    pub open spec fn scaled_fits(&self, level: int) -> bool {
        let sn = self.scaled_parts(level).0;
        let sd = self.scaled_parts(level).1;
        let n = Self::exponent(level);
        let m = if n >= 0 { n } else { -n };
        &&& self.spec_scaling() matches LevelScaling::Exponential(base) ==> (pow(1000, m as nat)
            <= EXACT_LIMIT && pow(base as int, m as nat) <= EXACT_LIMIT)
        &&& -EXACT_LIMIT <= sn <= EXACT_LIMIT
        &&& sd <= EXACT_LIMIT
    }

    /// The product of the factors and its denominator stay within
    /// `EXACT_LIMIT`, and so does every partial product.
    pub open spec fn factors_fit(&self) -> bool {
        &&& forall|i: int|
            0 <= i <= self.multiplicative().len() ==> #[trigger] product_factors(
                self.multiplicative().subrange(0, i),
            ) <= EXACT_LIMIT
        &&& pow1000(self.multiplicative().len()) <= EXACT_LIMIT
    }

    /// Every intermediate of the exact value at `level` stays within
    /// `EXACT_LIMIT`.
    pub open spec fn value_fits(&self, level: int) -> bool {
        let sn = self.scaled_parts(level).0;
        let sd = self.scaled_parts(level).1;
        let a = sum_additive(self.additive()) * sd;
        let num = (sn + a) * product_factors(self.multiplicative());
        &&& self.scaled_fits(level)
        &&& self.factors_fit()
        &&& -EXACT_LIMIT <= a <= EXACT_LIMIT
        &&& -EXACT_LIMIT <= sn + a <= EXACT_LIMIT
        &&& -EXACT_LIMIT <= num <= EXACT_LIMIT
        &&& sd * pow1000(self.multiplicative().len()) <= EXACT_LIMIT
    }

    pub fn new(raw_value: i32, scaling: LevelScaling) -> (r: Self)
        ensures
            r.wf(),
            r.spec_raw() == raw_value,
            r.spec_scaling() == scaling,
            r.additive().len() == 0,
            r.multiplicative().len() == 0,
    {
        Self {
            raw_value,
            level_scaling: scaling,
            additive_modifiers: Vec::new(),
            multiplicative_modifiers: Vec::new(),
        }
    }

    /// Approximation by compounding level by level, used where the exact
    /// value does not fit.
    fn compounded(&self, level: i32) -> (r: i32)
        ensures
            r == self.compounded_value(level as int),
    {
        match self.level_scaling {
            LevelScaling::NoScaling => self.raw_value,
            LevelScaling::Linear(increment) => {
                proof {
                    let li = level as int;
                    let ii = increment as int;
                    assert(-0x4000_0000_0000_0000 <= li * ii <= 0x4000_0000_0000_0000)
                        by (nonlinear_arith)
                        requires
                            -0x8000_0000 <= li < 0x8000_0000,
                            -0x8000_0000 <= ii < 0x8000_0000,
                    ;
                }
                clamp_to_i32(self.raw_value as i128 + level as i128 * increment as i128)
            },
            LevelScaling::Exponential(base) => {
                let n: i64 = level as i64 - MIN_LEVEL as i64 + 1;
                let mut v: i32 = self.raw_value;
                let mut i: i64 = 0;
                while i < n
                    invariant
                        0 <= i,
                        i <= n || n <= 0,
                        self.level_scaling == LevelScaling::Exponential(base),
                        n == level as int - MIN_LEVEL + 1,
                        compound(self.raw_value as int, base as int, n as int) == compound(
                            v as int,
                            base as int,
                            n - i,
                        ),
                    decreases n - i,
                {
                    let next = scale_step(v, base);
                    if next == v {
                        proof {
                            lemma_compound_fixed(v as int, base as int, n - i);
                        }
                        return v;
                    }
                    v = next;
                    i = i + 1;
                }
                v
            },
        }
    }

    /// `base^n`, if it stays within `EXACT_LIMIT`.
    fn power(base: i128, n: u64) -> (r: Option<i128>)
        requires
            0 <= base,
        ensures
            r matches Some(v) ==> v == pow(base as int, n as nat) && 0 <= v <= EXACT_LIMIT,
            pow(base as int, n as nat) <= EXACT_LIMIT ==> r is Some,
    {
        let mut acc: i128 = 1;
        let mut j: u64 = 0;
        proof {
            vstd::arithmetic::power::lemma_pow0(base as int);
        }
        while j < n
            invariant
                0 <= base,
                j <= n,
                acc == pow(base as int, j as nat),
                0 <= acc <= EXACT_LIMIT,
            decreases n - j,
        {
            proof {
                reveal(pow);
                assert(pow(base as int, (j + 1) as nat) == base * pow(base as int, j as nat));
                assert(base * acc == acc * base) by (nonlinear_arith);
                assert(0 <= acc * base) by (nonlinear_arith)
                    requires
                        0 <= acc,
                        0 <= base,
                ;
                assert(acc * base <= EXACT_LIMIT * 0x8000_0000_0000_0000_0000_0000_0000_0000) by (nonlinear_arith)
                    requires
                        0 <= acc <= EXACT_LIMIT,
                        0 <= base < 0x8000_0000_0000_0000_0000_0000_0000_0000,
                ;
            }
            if base != 0 && acc > EXACT_LIMIT / base {
                proof {
                    assert(acc * base > EXACT_LIMIT) by (nonlinear_arith)
                        requires
                            0 < base,
                            acc > EXACT_LIMIT / base,
                    ;
                    vstd::arithmetic::power::lemma_pow_increases(base as nat, (j + 1) as nat, n as nat);
                    assert(pow(base as int, (j + 1) as nat) > EXACT_LIMIT);
                }
                return None;
            }
            proof {
                if base != 0 {
                    assert(acc * base <= EXACT_LIMIT) by (nonlinear_arith)
                        requires
                            0 < base,
                            acc <= EXACT_LIMIT / base,
                    ;
                }
            }
            let ghost prev = acc;
            acc = acc * base;
            proof {
                assert(acc == prev * base);
                assert(acc == pow(base as int, (j + 1) as nat));
            }
            j = j + 1;
        }
        Some(acc)
    }

    /// The scaled raw value as numerator and denominator, when they fit.
    fn scaled_parts_exec(&self, level: i32) -> (r: Option<(i128, i128)>)
        ensures
            r matches Some(p) ==> p.0 == self.scaled_parts(level as int).0,
            r matches Some(p) ==> p.1 == self.scaled_parts(level as int).1,
            r matches Some(p) ==> 0 < p.1 <= EXACT_LIMIT,
            r matches Some(p) ==> -EXACT_LIMIT <= p.0 <= EXACT_LIMIT,
            r is Some <==> self.scaled_fits(level as int),
    {
        match self.level_scaling {
            LevelScaling::NoScaling => {
                assert(self.scaled_parts(level as int) == (self.spec_raw(), 1int));
                assert(-EXACT_LIMIT <= self.raw_value as i128 <= EXACT_LIMIT);
                Some((self.raw_value as i128, 1))
            },
            LevelScaling::Linear(increment) => {
                proof {
                    let li = level as int;
                    let ii = increment as int;
                    assert(-0x4000_0000_0000_0000 <= li * ii <= 0x4000_0000_0000_0000)
                        by (nonlinear_arith)
                        requires
                            -0x8000_0000 <= li < 0x8000_0000,
                            -0x8000_0000 <= ii < 0x8000_0000,
                    ;
                }
                Some((self.raw_value as i128 + level as i128 * increment as i128, 1))
            },
            LevelScaling::Exponential(base) => {
                let n: i64 = level as i64 - MIN_LEVEL as i64 + 1;
                let m: u64 = if n >= 0 {
                    n as u64
                } else {
                    (-n) as u64
                };
                let thousand_pow = match Self::power(1000, m) {
                    Some(v) => v,
                    None => {
                        return None;
                    },
                };
                if n < 0 && base == 0 {
                    proof {
                        reveal(pow);
                        assert(pow(0, m as nat) == 0);
                    }
                    return Some((0, 1));
                }
                let base_pow = match Self::power(base as i128, m) {
                    Some(v) => v,
                    None => {
                        return None;
                    },
                };
                proof {
                    vstd::arithmetic::power::lemma_pow_positive(1000, m as nat);
                    if base > 0 {
                        vstd::arithmetic::power::lemma_pow_positive(base as int, m as nat);
                    }
                }
                let (up, down) = if n >= 0 {
                    (base_pow, thousand_pow)
                } else {
                    (thousand_pow, base_pow)
                };
                match (self.raw_value as i128).checked_mul(up) {
                    Some(num) => {
                        if num < -EXACT_LIMIT || num > EXACT_LIMIT {
                            return None;
                        }
                        Some((num, down))
                    },
                    None => None,
                }
            },
        }
    }

    /// Sum of the additive modifiers.
    pub fn get_total_additive_modifier(&self) -> (r: i128)
        ensures
            r == sum_additive(self.additive()),
    {
        let n = self.additive_modifiers.len();
        let mut total: i128 = 0;
        let mut i: usize = 0;
        while i < n
            invariant
                n == self.additive().len(),
                0 <= i <= n,
                total == sum_additive(self.additive().subrange(0, i as int)),
                -0x8000_0000 * i <= total <= 0x8000_0000 * i,
            decreases n - i,
        {
            proof {
                assert(self.additive().subrange(0, i + 1).drop_last() == self.additive().subrange(
                    0,
                    i as int,
                ));
            }
            total = total + self.additive_modifiers[i].1 as i128;
            i = i + 1;
        }
        assert(self.additive().subrange(0, i as int) == self.additive());
        total
    }

    /// Product of the multiplicative factors and its denominator `1000^k`,
    /// both exact: the total factor is `r.0 / r.1`. `None` when a partial
    /// product or the denominator exceeds `EXACT_LIMIT`.
    pub fn get_total_multiplicative_modifier(&self) -> (r: Option<(i128, i128)>)
        ensures
            r matches Some(p) ==> p.0 == product_factors(self.multiplicative()) && p.1 == pow1000(
                self.multiplicative().len(),
            ) && 0 <= p.0 <= EXACT_LIMIT && 0 < p.1 <= EXACT_LIMIT,
            r is Some <==> self.factors_fit(),
    {
        let n = self.multiplicative_modifiers.len();
        let mut num: i128 = 1;
        let mut den: i128 = 1;
        let mut i: usize = 0;
        proof {
            assert(self.multiplicative().subrange(0, 0) =~= Seq::<(u128, u32)>::empty());
        }
        while i < n
            invariant
                n == self.multiplicative().len(),
                0 <= i <= n,
                num == product_factors(self.multiplicative().subrange(0, i as int)),
                den == pow1000(i as nat),
                0 <= num <= EXACT_LIMIT,
                0 < den <= EXACT_LIMIT,
                forall|j: int|
                    0 <= j <= i ==> #[trigger] product_factors(self.multiplicative().subrange(0, j))
                        <= EXACT_LIMIT,
            decreases n - i,
        {
            proof {
                assert(self.multiplicative().subrange(0, i + 1).drop_last()
                    == self.multiplicative().subrange(0, i as int));
            }
            let f = self.multiplicative_modifiers[i].1 as i128;
            proof {
                assert(0 <= num * f) by (nonlinear_arith)
                    requires
                        0 <= num,
                        0 <= f,
                ;
            }
            if (f != 0 && num > EXACT_LIMIT / f) || den > EXACT_LIMIT / 1000 {
                proof {
                    if f != 0 && num > EXACT_LIMIT / f {
                        assert(num * f > EXACT_LIMIT) by (nonlinear_arith)
                            requires
                                0 < f,
                                num > EXACT_LIMIT / f,
                        ;
                    }
                }
                proof {
                    if self.factors_fit() {
                        assert(product_factors(self.multiplicative().subrange(0, i + 1)) <= EXACT_LIMIT);
                        lemma_pow1000_increases(i as nat + 1, n as nat);
                    }
                }
                return None;
            }
            proof {
                if f != 0 {
                    assert(num * f <= EXACT_LIMIT) by (nonlinear_arith)
                        requires
                            0 < f,
                            num <= EXACT_LIMIT / f,
                    ;
                }
            }
            let ghost prev_num = num;
            num = num * f;
            den = den * 1000;
            proof {
                assert(num == product_factors(self.multiplicative().subrange(0, i + 1)));
                assert forall|j: int|
                    0 <= j <= i + 1 implies #[trigger] product_factors(self.multiplicative().subrange(0, j))
                        <= EXACT_LIMIT by {
                }
            }
            i = i + 1;
        }
        assert(self.multiplicative().subrange(0, i as int) == self.multiplicative());
        Some((num, den))
    }

    /// The value at `level`: scaled raw value plus additive modifiers, times
    /// the multiplicative ones, rounded toward zero once. Exact whenever the
    /// computation fits (`value_fits`); beyond that, an approximation that
    /// compounds level by level and factor by factor.
    pub fn get_value(&self, level: i32) -> (r: i32)
        ensures
            r == self.effective_value(level as int),
            self.value_fits(level as int) ==> r == self.value(level as int),
    {
        match self.exact_value(level) {
            Some(v) => v,
            None => {
                let scaled = self.compounded(level) as i128;
                let add = self.get_total_additive_modifier();
                let mut v: i32 = if add > 0x1_0000_0000 || add < -0x1_0000_0000 {
                    if add > 0 {
                        i32::MAX
                    } else {
                        i32::MIN
                    }
                } else {
                    clamp_to_i32(scaled + add)
                };
                let mut i: usize = 0;
                assert(self.multiplicative().subrange(0, 0) =~= Seq::<(u128, u32)>::empty());
                while i < self.multiplicative_modifiers.len()
                    invariant
                        0 <= i <= self.multiplicative().len(),
                        v == apply_factors(
                            clamp_i32(self.compounded_value(level as int) + sum_additive(self.additive())),
                            self.multiplicative().subrange(0, i as int),
                        ),
                    decreases self.multiplicative().len() - i,
                {
                    proof {
                        assert(self.multiplicative().subrange(0, i + 1).drop_last()
                            == self.multiplicative().subrange(0, i as int));
                    }
                    v = scale_step(v, self.multiplicative_modifiers[i].1);
                    i = i + 1;
                }
                assert(self.multiplicative().subrange(0, i as int) == self.multiplicative());
                v
            },
        }
    }

    fn exact_value(&self, level: i32) -> (r: Option<i32>)
        ensures
            r matches Some(v) ==> v == self.value(level as int),
            r is Some <==> self.value_fits(level as int),
    {
        let (sn, sd) = match self.scaled_parts_exec(level) {
            Some(p) => p,
            None => {
                return None;
            },
        };
        let (prod, den_k) = match self.get_total_multiplicative_modifier() {
            Some(p) => p,
            None => {
                return None;
            },
        };
        let add = self.get_total_additive_modifier();
        let a = match add.checked_mul(sd) {
            Some(a) => a,
            None => {
                return None;
            },
        };
        if a < -EXACT_LIMIT || a > EXACT_LIMIT {
            return None;
        }
        let b = sn + a;
        if b < -EXACT_LIMIT || b > EXACT_LIMIT {
            return None;
        }
        let num = match b.checked_mul(prod) {
            Some(x) => x,
            None => {
                return None;
            },
        };
        let den = match sd.checked_mul(den_k) {
            Some(x) => x,
            None => {
                return None;
            },
        };
        if num < -EXACT_LIMIT || num > EXACT_LIMIT || den > EXACT_LIMIT {
            return None;
        }
        proof {
            assert(0 < den) by (nonlinear_arith)
                requires
                    0 < sd,
                    0 < den_k,
                    den == sd * den_k,
            ;
        }
        let q: i128 = if num >= 0 {
            num / den
        } else {
            -((-num) / den)
        };
        Some(clamp_to_i32(q))
    }

    /// The raw value scaled by `level`, ignoring modifiers; exact whenever
    /// the scaling fits (`scaled_fits`).
    pub fn get_value_without_modifiers(&self, level: i32) -> (r: i32)
        ensures
            r == self.effective_scaled_value(level as int),
            self.scaled_fits(level as int) ==> r == self.scaled_value(level as int),
    {
        match self.scaled_parts_exec(level) {
            Some((sn, sd)) => {
                let q: i128 = if sn >= 0 {
                    sn / sd
                } else {
                    -((-sn) / sd)
                };
                clamp_to_i32(q)
            },
            None => self.compounded(level),
        }
    }

    /// Whether the modifiers change the value at all: a nonzero sum of
    /// additive modifiers or a total factor other than one. Exact whenever
    /// the factors fit (`factors_fit`); beyond that, any factor that is not
    /// one counts.
    pub fn is_modified(&self) -> (r: bool)
        ensures
            self.factors_fit() ==> r == (sum_additive(self.additive()) != 0 || product_factors(
                self.multiplicative(),
            ) != pow1000(self.multiplicative().len())),
    {
        let additive = self.get_total_additive_modifier() != 0;
        match self.get_total_multiplicative_modifier() {
            Some((num, den)) => additive || num != den,
            None => {
                let mut changed = additive;
                let mut i: usize = 0;
                while i < self.multiplicative_modifiers.len()
                    decreases self.multiplicative().len() - i,
                {
                    if self.multiplicative_modifiers[i].1 != 1000 {
                        changed = true;
                    }
                    i = i + 1;
                }
                changed
            },
        }
    }

    /// Sets the additive modifier of source `modifier_id`, replacing an
    /// earlier one from the same source.
    pub fn apply_additive_modifier(&mut self, modifier_id: u128, modifier: i32)
        requires
            old(self).wf(),
        ensures
            final(self).wf(),
            final(self).additive() == upsert(old(self).additive(), modifier_id, modifier),
            final(self).multiplicative() == old(self).multiplicative(),
            final(self).spec_raw() == old(self).spec_raw(),
            final(self).spec_scaling() == old(self).spec_scaling(),
    {
        match find_key(&self.additive_modifiers, modifier_id) {
            Some(i) => {
                self.additive_modifiers.set(i, (modifier_id, modifier));
            },
            None => {
                self.additive_modifiers.push((modifier_id, modifier));
            },
        }
    }

    /// Sets the multiplicative modifier of source `modifier_id`, in
    /// thousandths, replacing an earlier one from the same source.
    pub fn apply_multiplicative_modifier(&mut self, modifier_id: u128, modifier: u32)
        requires
            old(self).wf(),
        ensures
            final(self).wf(),
            final(self).multiplicative() == upsert(
                old(self).multiplicative(),
                modifier_id,
                modifier,
            ),
            final(self).additive() == old(self).additive(),
            final(self).spec_raw() == old(self).spec_raw(),
            final(self).spec_scaling() == old(self).spec_scaling(),
    {
        match find_key(&self.multiplicative_modifiers, modifier_id) {
            Some(i) => {
                self.multiplicative_modifiers.set(i, (modifier_id, modifier));
            },
            None => {
                self.multiplicative_modifiers.push((modifier_id, modifier));
            },
        }
    }

    /// Removes both modifiers of source `modifier_id`, if any.
    pub fn remove_modifier(&mut self, modifier_id: u128)
        requires
            old(self).wf(),
        ensures
            final(self).wf(),
            final(self).additive() == remove_key(old(self).additive(), modifier_id),
            final(self).multiplicative() == remove_key(old(self).multiplicative(), modifier_id),
            final(self).spec_raw() == old(self).spec_raw(),
            final(self).spec_scaling() == old(self).spec_scaling(),
    {
        if let Some(i) = find_key(&self.additive_modifiers, modifier_id) {
            self.additive_modifiers.remove(i);
        }
        if let Some(i) = find_key(&self.multiplicative_modifiers, modifier_id) {
            self.multiplicative_modifiers.remove(i);
        }
    }

    pub fn get_raw_value(&self) -> (r: i32)
        ensures
            r == self.spec_raw(),
    {
        self.raw_value
    }
}

} // verus!
