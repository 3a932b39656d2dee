use crate::check::d20;
use crate::creature::perception::Awareness;
use crate::random::shuffle_order;
use crate::creature::Creature;
use crate::item::targeting::ids_unique;
use crate::world::Layer;
use vstd::prelude::*;

verus! {

pub open spec fn sorted_by_roll(s: Seq<(i32, u128)>) -> bool {
    forall|i: int, j: int| #![trigger s[i], s[j]] 0 <= i < j < s.len() ==> s[i].0 >= s[j].0
}

/// Entries with roll `v`, in order.
pub open spec fn with_roll(s: Seq<(i32, u128)>, v: i32) -> Seq<(i32, u128)> {
    s.filter(roll_is(v))
}

pub open spec fn roll_is(v: i32) -> spec_fn((i32, u128)) -> bool {
    |e: (i32, u128)| e.0 == v
}

/// The controller of creature `id` on the layer, if any, counts as aware:
/// player controlled or in combat.
pub open spec fn aware_in(layer: Layer, id: u128) -> bool {
    exists|i: int|
        0 <= i < layer.creature_ai@.len() && (#[trigger] layer.creature_ai@[i]).owner_id == id && (
        layer.creature_ai@[i].player_controlled() || layer.creature_ai@[i].perception.spec_awareness()
            == Awareness::Combat)
}

/// Turn order of a round: (roll, creature id), highest roll first.
#[derive(Clone, Debug)]
pub struct Initiative {
    order: Vec<(i32, u128)>,
}

proof fn lemma_filter_insert(s: Seq<(i32, u128)>, p: int, x: (i32, u128), v: i32)
    requires
        0 <= p <= s.len(),
        forall|k: int| p <= k < s.len() ==> (#[trigger] s[k]).0 < x.0,
    ensures
        with_roll(s.insert(p, x), v) == if x.0 == v {
            with_roll(s, v).push(x)
        } else {
            with_roll(s, v)
        },
{
    let f = roll_is(v);
    let pre = s.subrange(0, p);
    let post = s.subrange(p, s.len() as int);
    let one = seq![x];
    assert(s == pre + post);
    assert(s.insert(p, x) == (pre + one) + post);
    Seq::filter_distributes_over_add(pre, post, f);
    Seq::filter_distributes_over_add(pre + one, post, f);
    Seq::filter_distributes_over_add(pre, one, f);
    assert(with_roll(s, v) == s.filter(f));
    assert(with_roll(s.insert(p, x), v) == s.insert(p, x).filter(f));
    assert(one.filter(f) == if f(x) { one } else { Seq::<(i32, u128)>::empty() }) by {
        reveal(Seq::filter);
        assert(one.drop_last() == Seq::<(i32, u128)>::empty());
        assert(one.drop_last().filter(f) == Seq::<(i32, u128)>::empty());
        assert(one.last() == x);
    }
    if x.0 == v {
        assert forall|k: int| 0 <= k < post.len() implies !f(#[trigger] post[k]) by {
            assert(post[k] == s[p + k]);
        }
        lemma_filter_none(post, f);
        assert(pre.filter(f) + one + post.filter(f) == (pre.filter(f) + post.filter(f)).push(x));
    } else {
        assert(pre.filter(f) + Seq::<(i32, u128)>::empty() == pre.filter(f));
    }
}

proof fn lemma_filter_none(s: Seq<(i32, u128)>, f: spec_fn((i32, u128)) -> bool)
    requires
        forall|k: int| 0 <= k < s.len() ==> !f(#[trigger] s[k]),
    ensures
        s.filter(f) == Seq::<(i32, u128)>::empty(),
    decreases s.len(),
{
    reveal(Seq::filter);
    if s.len() > 0 {
        assert forall|k: int| 0 <= k < s.drop_last().len() implies !f(#[trigger] s.drop_last()[k]) by {
            assert(s.drop_last()[k] == s[k]);
        }
        lemma_filter_none(s.drop_last(), f);
    }
}

/// Every roll is from 1 to 20, for a living creature among the first `i`.
#[verifier::opaque]
pub closed spec fn rolls_from(creatures: Seq<Creature>, rolls: Seq<(i32, u128)>, i: int) -> bool {
    forall|k: int|
        #![trigger rolls[k]]
        0 <= k < rolls.len() ==> 1 <= rolls[k].0 <= 20 && exists|j: int|
            0 <= j < i && (#[trigger] creatures[j]).id == rolls[k].1 && creatures[j].spec_alive()
}

/// Every living creature among the first `i` has a roll.
#[verifier::opaque]
pub closed spec fn rolls_cover(creatures: Seq<Creature>, rolls: Seq<(i32, u128)>, i: int) -> bool {
    forall|j: int|
        #![trigger creatures[j]]
        0 <= j < i && creatures[j].spec_alive() ==> exists|k: int|
            0 <= k < rolls.len() && (#[trigger] rolls[k]).1 == creatures[j].id
}

/// No creature has two rolls.
#[verifier::opaque]
pub closed spec fn rolls_distinct(rolls: Seq<(i32, u128)>) -> bool {
    forall|k: int, m: int|
        #![trigger rolls[k], rolls[m]]
        0 <= k < m < rolls.len() ==> rolls[k].1 != rolls[m].1
}

/// `rolls` holds one roll from 1 to 20 for each living creature among the
/// first `i`, and nothing else.
pub open spec fn rolls_inv(creatures: Seq<Creature>, rolls: Seq<(i32, u128)>, i: int) -> bool {
    rolls_from(creatures, rolls, i) && rolls_cover(creatures, rolls, i) && rolls_distinct(rolls)
}

proof fn lemma_rolls_step(creatures: Seq<Creature>, before: Seq<(i32, u128)>, rolls: Seq<(i32, u128)>, i: int)
    requires
        ids_unique(creatures),
        0 <= i < creatures.len(),
        rolls_inv(creatures, before, i),
        creatures[i].spec_alive() ==> rolls.len() == before.len() + 1 && rolls.drop_last() == before
            && rolls.last().1 == creatures[i].id && 1 <= rolls.last().0 <= 20,
        !creatures[i].spec_alive() ==> rolls == before,
    ensures
        rolls_inv(creatures, rolls, i + 1),
{
    assert(rolls_from(creatures, rolls, i + 1)) by {
        reveal(rolls_from);
        assert forall|k: int|
            #![trigger rolls[k]]
            0 <= k < rolls.len() implies 1 <= rolls[k].0 <= 20 && exists|j: int|
                0 <= j < i + 1 && (#[trigger] creatures[j]).id == rolls[k].1
                    && creatures[j].spec_alive() by {
            if k < before.len() {
                assert(rolls[k] == before[k]);
            } else {
                assert(creatures[i].id == rolls[k].1);
            }
        }
    }
    assert(rolls_cover(creatures, rolls, i + 1)) by {
        reveal(rolls_cover);
        assert forall|j: int|
            #![trigger creatures[j]]
            0 <= j < i + 1 && creatures[j].spec_alive() implies exists|k: int|
                0 <= k < rolls.len() && (#[trigger] rolls[k]).1 == creatures[j].id by {
            if j < i {
                let k = choose|k: int| 0 <= k < before.len() && (#[trigger] before[k]).1 == creatures[j].id;
                assert(rolls[k] == before[k]);
            } else {
                assert(rolls[rolls.len() - 1] == rolls.last());
            }
        }
    }
    assert(rolls_distinct(rolls)) by {
        reveal(rolls_distinct);
        if creatures[i].spec_alive() {
            assert forall|k: int, m: int|
                #![trigger rolls[k], rolls[m]]
                0 <= k < m < rolls.len() implies rolls[k].1 != rolls[m].1 by {
                assert(rolls[k] == before[k]);
                if m < before.len() {
                    assert(rolls[m] == before[m]);
                } else {
                    reveal(rolls_from);
                    let j = choose|j: int| 0 <= j < i && (#[trigger] creatures[j]).id == before[k].1
                        && creatures[j].spec_alive();
                    assert(creatures[j].id != creatures[i].id);
                }
            }
        }
    }
}

impl Initiative {
    pub closed spec fn spec_order(&self) -> Seq<(i32, u128)> {
        self.order@
    }

    /// Orders `rolls` by roll, highest first, keeping the given order among
    /// equal rolls.
    pub fn from_rolls(rolls: &Vec<(i32, u128)>) -> (r: Self)
        ensures
            sorted_by_roll(r.spec_order()),
            forall|v: i32| #[trigger] with_roll(r.spec_order(), v) == with_roll(rolls@, v),
            r.spec_order().len() == rolls@.len(),
            forall|i: int| 0 <= i < r.spec_order().len() ==> rolls@.contains(#[trigger] r.spec_order()[i]),
            r.spec_order().to_multiset() == rolls@.to_multiset(),
    {
        let mut order: Vec<(i32, u128)> = Vec::new();
        let mut k: usize = 0;
        assert(rolls@.subrange(0, 0) =~= order@);
        while k < rolls.len()
            invariant
                0 <= k <= rolls@.len(),
                sorted_by_roll(order@),
                order@.to_multiset() == rolls@.subrange(0, k as int).to_multiset(),
                forall|v: i32| #[trigger] with_roll(order@, v) == with_roll(rolls@.subrange(0, k as int), v),
                order@.len() == k,
                forall|i: int| 0 <= i < order@.len() ==> rolls@.subrange(0, k as int).contains(#[trigger] order@[i]),
            decreases rolls@.len() - k,
        {
            let x = rolls[k];
            let mut p: usize = 0;
            while p < order.len() && order[p].0 >= x.0
                invariant
                    0 <= p <= order@.len(),
                    sorted_by_roll(order@),
                    forall|q: int| 0 <= q < p ==> (#[trigger] order@[q]).0 >= x.0,
                decreases order@.len() - p,
            {
                p = p + 1;
            }
            let ghost before = order@;
            proof {
                assert forall|q: int| p <= q < before.len() implies (#[trigger] before[q]).0 < x.0 by {
                    assert(before[p as int].0 < x.0);
                    if q > p {
                        assert(before[p as int].0 >= before[q].0);
                    }
                }
                assert(rolls@.subrange(0, k + 1) == rolls@.subrange(0, k as int).push(x));
                assert forall|v: i32| #[trigger] with_roll(before.insert(p as int, x), v) == with_roll(rolls@.subrange(0, k + 1), v) by {
                    lemma_filter_insert(before, p as int, x, v);
                    reveal(Seq::filter);
                    assert(rolls@.subrange(0, k + 1).drop_last() == rolls@.subrange(0, k as int));
                }
            }
            order.insert(p, x);
            proof {
                let ins = order@;
                assert(ins.remove(p as int) =~= before);
                ins.to_multiset_ensures();
                before.to_multiset_ensures();
                rolls@.subrange(0, k as int).to_multiset_ensures();
                assert(ins[p as int] == x);
                assert(ins.to_multiset().count(x) > 0) by {
                    assert(ins.contains(x));
                }
                assert(ins.to_multiset() =~= before.to_multiset().insert(x));
                assert(rolls@.subrange(0, k as int).push(x).to_multiset() == rolls@.subrange(0, k as int).to_multiset().insert(x));
                assert forall|i: int, j: int| #![trigger order@[i], order@[j]] 0 <= i < j < order@.len() implies order@[i].0 >= order@[j].0 by {
                    if j < p {
                        assert(order@[i] == before[i] && order@[j] == before[j]);
                    } else if j == p {
                        assert(order@[i] == before[i]);
                    } else if i < p {
                        assert(order@[i] == before[i] && order@[j] == before[j - 1]);
                    } else if i == p {
                        assert(order@[j] == before[j - 1]);
                    } else {
                        assert(order@[i] == before[i - 1] && order@[j] == before[j - 1]);
                    }
                }
                assert forall|i: int| 0 <= i < order@.len() implies rolls@.subrange(0, k + 1).contains(#[trigger] order@[i]) by {
                    if i < p {
                        assert(order@[i] == before[i]);
                        let j = choose|j: int| 0 <= j < k && rolls@.subrange(0, k as int)[j] == before[i];
                        assert(rolls@.subrange(0, k + 1)[j] == before[i]);
                    } else if i == p {
                        assert(rolls@.subrange(0, k + 1)[k as int] == x);
                    } else {
                        assert(order@[i] == before[i - 1]);
                        let j = choose|j: int| 0 <= j < k && rolls@.subrange(0, k as int)[j] == before[i - 1];
                        assert(rolls@.subrange(0, k + 1)[j] == before[i - 1]);
                    }
                }
            }
            k = k + 1;
        }
        assert(rolls@.subrange(0, k as int) == rolls@);
        Self { order }
    }

    pub open spec fn is_aware_entry(layer: Layer) -> spec_fn((i32, u128)) -> bool {
        |e: (i32, u128)| aware_in(layer, e.1)
    }

    pub open spec fn is_wandering_entry(layer: Layer) -> spec_fn((i32, u128)) -> bool {
        |e: (i32, u128)| wandering_in(layer, e.1)
    }

    pub open spec fn is_other_entry(id: u128) -> spec_fn((i32, u128)) -> bool {
        |e: (i32, u128)| e.1 != id
    }

    /// Rolls a d20 for every living creature, shuffles the rolls and orders
    /// them by roll, highest first: creatures with equal rolls come in random
    /// order, each as likely as the others to go first.
    #[verifier::rlimit(50)]
    pub fn roll_initiative(layer: &Layer) -> (r: Self)
        requires
            layer.wf(),
        ensures
            sorted_by_roll(r.spec_order()),
            forall|i: int|
                #![trigger r.spec_order()[i]]
                0 <= i < r.spec_order().len() ==> 1 <= r.spec_order()[i].0 <= 20 && exists|j: int|
                    0 <= j < layer.creatures@.len() && (#[trigger] layer.creatures@[j]).id
                        == r.spec_order()[i].1 && layer.creatures@[j].spec_alive(),
            forall|j: int|
                #![trigger layer.creatures@[j]]
                0 <= j < layer.creatures@.len() && layer.creatures@[j].spec_alive() ==> exists|i: int|
                    0 <= i < r.spec_order().len() && (#[trigger] r.spec_order()[i]).1
                        == layer.creatures@[j].id,
            forall|i: int, k: int|
                #![trigger r.spec_order()[i], r.spec_order()[k]]
                0 <= i < k < r.spec_order().len() ==> r.spec_order()[i].1 != r.spec_order()[k].1,
    {
        let mut rolls: Vec<(i32, u128)> = Vec::new();
        let mut i: usize = 0;
        proof {
            assert(ids_unique(layer.creatures@));
            reveal(rolls_from);
            reveal(rolls_cover);
            reveal(rolls_distinct);
        }
        while i < layer.creatures.len()
            invariant
                ids_unique(layer.creatures@),
                0 <= i <= layer.creatures@.len(),
                rolls_inv(layer.creatures@, rolls@, i as int),
            decreases layer.creatures@.len() - i,
        {
            let ghost before = rolls@;
            if layer.creatures[i].is_alive() {
                // The initiative stat does not add to the roll yet.
                let init_bonus: i32 = 0;
                let roll = d20() + init_bonus;
                rolls.push((roll, layer.creatures[i].id));
                assert(rolls@.drop_last() =~= before);
            }
            proof {
                lemma_rolls_step(layer.creatures@, before, rolls@, i as int);
            }
            i = i + 1;
        }
        proof {
            reveal(rolls_from);
            reveal(rolls_cover);
            reveal(rolls_distinct);
        }
        let ghost unshuffled = rolls@;
        let r = Self::shuffle_and_order(rolls);
        proof {
            let order = r.spec_order();
            unshuffled.to_multiset_ensures();
            order.to_multiset_ensures();
            assert(unshuffled.no_duplicates()) by {
                assert forall|a: int, b: int| 0 <= a < unshuffled.len() && 0 <= b < unshuffled.len() && a != b implies unshuffled[a] != unshuffled[b] by {
                    if a < b {
                        assert(unshuffled[a].1 != unshuffled[b].1);
                    } else {
                        assert(unshuffled[b].1 != unshuffled[a].1);
                    }
                }
            }
            unshuffled.lemma_multiset_has_no_duplicates();
            order.lemma_multiset_has_no_duplicates_conv();
            assert forall|i: int|
                #![trigger r.spec_order()[i]]
                0 <= i < r.spec_order().len() implies 1 <= r.spec_order()[i].0 <= 20 && exists|j: int|
                    0 <= j < layer.creatures@.len() && (#[trigger] layer.creatures@[j]).id
                        == r.spec_order()[i].1 && layer.creatures@[j].spec_alive() by {
                let e = r.spec_order()[i];
                assert(unshuffled.contains(e));
                let k = choose|k: int| 0 <= k < unshuffled.len() && unshuffled[k] == e;
                assert(unshuffled[k] == e);
            }
            assert forall|j: int|
                #![trigger layer.creatures@[j]]
                0 <= j < layer.creatures@.len() && layer.creatures@[j].spec_alive() implies exists|i: int|
                    0 <= i < order.len() && (#[trigger] order[i]).1 == layer.creatures@[j].id by {
                let k = choose|k: int| 0 <= k < unshuffled.len() && (#[trigger] unshuffled[k]).1 == layer.creatures@[j].id;
                let e = unshuffled[k];
                assert(unshuffled.contains(e));
                assert(unshuffled.to_multiset().count(e) > 0);
                assert(order.contains(e));
                let i = choose|i: int| 0 <= i < order.len() && order[i] == e;
                assert(order[i].1 == layer.creatures@[j].id);
            }
            assert forall|i: int, k: int|
                #![trigger order[i], order[k]]
                0 <= i < k < order.len() implies order[i].1 != order[k].1 by {
                let e = order[i];
                let f = order[k];
                assert(order.contains(e) && order.contains(f));
                assert(order.to_multiset().count(e) > 0 && order.to_multiset().count(f) > 0);
                assert(unshuffled.contains(e) && unshuffled.contains(f));
                let a = choose|a: int| 0 <= a < unshuffled.len() && unshuffled[a] == e;
                let b = choose|b: int| 0 <= b < unshuffled.len() && unshuffled[b] == f;
                if e.1 == f.1 {
                    if a < b {
                        assert(unshuffled[a].1 != unshuffled[b].1);
                    } else if b < a {
                        assert(unshuffled[b].1 != unshuffled[a].1);
                    }
                    assert(e == f);
                }
            }
        }
        r
    }

    /// Shuffles `rolls`, then orders them by roll, highest first, keeping the
    /// shuffled order among equal rolls.
    pub fn shuffle_and_order(rolls: Vec<(i32, u128)>) -> (r: Self)
        ensures
            sorted_by_roll(r.spec_order()),
            r.spec_order().to_multiset() == rolls@.to_multiset(),
            exists|shuffled: Seq<(i32, u128)>|
                #![trigger shuffled.to_multiset()]
                shuffled.to_multiset() == rolls@.to_multiset() && forall|v: i32|
                    #[trigger] with_roll(r.spec_order(), v) == with_roll(shuffled, v),
            r.spec_order().len() == rolls@.len(),
            forall|i: int| 0 <= i < r.spec_order().len() ==> rolls@.contains(#[trigger] r.spec_order()[i]),
    {
        let mut rolls = rolls;
        let ghost unshuffled = rolls@;
        shuffle_order(&mut rolls);
        let r = Self::from_rolls(&rolls);
        assert(rolls@.to_multiset() == unshuffled.to_multiset());
        proof {
            unshuffled.to_multiset_ensures();
            rolls@.to_multiset_ensures();
            assert forall|i: int| 0 <= i < r.spec_order().len() implies unshuffled.contains(#[trigger] r.spec_order()[i]) by {
                let e = r.spec_order()[i];
                assert(rolls@.contains(e));
                assert(rolls@.to_multiset().count(e) > 0);
            }
        }
        r
    }

    /// The order, highest roll first.
    pub fn entries(&self) -> (r: Vec<(i32, u128)>)
        ensures
            r@ == self.spec_order(),
    {
        let mut v: Vec<(i32, u128)> = Vec::new();
        let mut i: usize = 0;
        while i < self.order.len()
            invariant
                0 <= i <= self.order@.len(),
                v@ == self.order@.subrange(0, i as int),
            decreases self.order@.len() - i,
        {
            v.push(self.order[i]);
            i = i + 1;
        }
        assert(self.order@.subrange(0, i as int) == self.order@);
        v
    }

    /// Takes a creature out of the order, keeping the others' order.
    pub fn remove(&mut self, creature_id: u128)
        ensures
            final(self).spec_order() == old(self).spec_order().filter(Self::is_other_entry(creature_id)),
    {
        let ghost pred = Self::is_other_entry(creature_id);
        let mut kept: Vec<(i32, u128)> = Vec::new();
        let mut i: usize = 0;
        while i < self.order.len()
            invariant
                0 <= i <= self.order@.len(),
                pred == Self::is_other_entry(creature_id),
                kept@ == self.order@.subrange(0, i as int).filter(pred),
            decreases self.order@.len() - i,
        {
            proof {
                assert(self.order@.subrange(0, i + 1).drop_last() == self.order@.subrange(0, i as int));
                reveal(Seq::filter);
            }
            if self.order[i].1 != creature_id {
                kept.push(self.order[i]);
            }
            i = i + 1;
        }
        assert(self.order@.subrange(0, i as int) == self.order@);
        self.order = kept;
    }

    fn cohort(&self, layer: &Layer, aware: bool) -> (r: Vec<(i32, u128)>)
        requires
            layer.wf(),
        ensures
            r@ == self.spec_order().filter(
                if aware {
                    Self::is_aware_entry(*layer)
                } else {
                    Self::is_wandering_entry(*layer)
                },
            ),
    {
        let ghost pred = if aware {
            Self::is_aware_entry(*layer)
        } else {
            Self::is_wandering_entry(*layer)
        };
        let mut result: Vec<(i32, u128)> = Vec::new();
        let mut i: usize = 0;
        while i < self.order.len()
            invariant
                layer.wf(),
                0 <= i <= self.order@.len(),
                pred == (if aware {
                    Self::is_aware_entry(*layer)
                } else {
                    Self::is_wandering_entry(*layer)
                }),
                result@ == self.order@.subrange(0, i as int).filter(pred),
            decreases self.order@.len() - i,
        {
            proof {
                assert(self.order@.subrange(0, i + 1).drop_last() == self.order@.subrange(0, i as int));
                reveal(Seq::filter);
            }
            let entry = self.order[i];
            let selected = match find_ai(layer, entry.1) {
                Some(k) => {
                    let player = layer.creature_ai[k].is_player_controlled();
                    let combat = layer.creature_ai[k].perception.get_awareness() == Awareness::Combat;
                    proof {
                        assert forall|j: int|
                            0 <= j < layer.creature_ai@.len() && (#[trigger] layer.creature_ai@[j]).owner_id
                                == entry.1 implies j == k by {
                            if j != k {
                                assert(layer.creatures@[j].id == layer.creatures@[k as int].id);
                            }
                        }
                    }
                    if aware {
                        player || combat
                    } else {
                        !player && !combat
                    }
                },
                None => false,
            };
            if selected {
                result.push(entry);
            }
            i = i + 1;
        }
        assert(self.order@.subrange(0, i as int) == self.order@);
        result
    }

    /// The creatures that act first in a round, in order: those a player
    /// controls and those in combat.
    pub fn get_aware(&self, layer: &Layer) -> (r: Vec<(i32, u128)>)
        requires
            layer.wf(),
        ensures
            r@ == self.spec_order().filter(Self::is_aware_entry(*layer)),
    {
        self.cohort(layer, true)
    }

    /// The others, in order: not controlled by a player and wandering.
    pub fn get_wandering(&self, layer: &Layer) -> (r: Vec<(i32, u128)>)
        requires
            layer.wf(),
        ensures
            r@ == self.spec_order().filter(Self::is_wandering_entry(*layer)),
    {
        self.cohort(layer, false)
    }
}

/// The controller of `id`, if the layer has one, is neither player
/// controlled nor in combat.
pub open spec fn wandering_in(layer: Layer, id: u128) -> bool {
    exists|i: int|
        0 <= i < layer.creature_ai@.len() && (#[trigger] layer.creature_ai@[i]).owner_id == id && (
        !layer.creature_ai@[i].player_controlled() && layer.creature_ai@[i].perception.spec_awareness()
            == Awareness::Wander)
}

/// Index of the controller of creature `id`: the first one owned by it.
fn find_ai(layer: &Layer, id: u128) -> (r: Option<usize>)
    ensures
        r matches Some(k) ==> k < layer.creature_ai@.len() && layer.creature_ai@[k as int].owner_id == id
            && forall|j: int| 0 <= j < k ==> (#[trigger] layer.creature_ai@[j]).owner_id != id,
        r is None ==> forall|j: int|
            0 <= j < layer.creature_ai@.len() ==> (#[trigger] layer.creature_ai@[j]).owner_id != id,
{
    let mut i: usize = 0;
    while i < layer.creature_ai.len()
        invariant
            0 <= i <= layer.creature_ai@.len(),
            forall|j: int| 0 <= j < i ==> (#[trigger] layer.creature_ai@[j]).owner_id != id,
        decreases layer.creature_ai@.len() - i,
    {
        if layer.creature_ai[i].owner_id == id {
            return Some(i);
        }
        i = i + 1;
    }
    None
}

} // verus!
