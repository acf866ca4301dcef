use vstd::prelude::*;

verus! {

/// The mathematical model of an environment: the next slot to hand out,
/// and the slot that each bound name resolves to.
pub ghost struct EnvModel {
    pub next: int,
    pub slots: Map<Seq<char>, int>,
}

/// The environment before any binding.
pub open spec fn empty_env() -> EnvModel {
    EnvModel { next: 1, slots: Map::empty() }
}

/// `env` after handing out its next slot.
pub open spec fn reserved(env: EnvModel) -> EnvModel {
    EnvModel { next: env.next + 1, ..env }
}

/// `env` with `name` resolving to `slot`, whatever it resolved to before.
pub open spec fn bound(env: EnvModel, name: Seq<char>, slot: int) -> EnvModel {
    EnvModel { slots: env.slots.insert(name, slot), ..env }
}

/// `env` after binding `name` to a fresh slot.
pub open spec fn added(env: EnvModel, name: Seq<char>) -> EnvModel {
    bound(reserved(env), name, env.next)
}

/// Every slot in use lies in `1 .. next`.
pub open spec fn slots_below_next(env: EnvModel) -> bool {
    &&& env.next >= 1
    &&& forall|n: Seq<char>| #[trigger] env.slots.contains_key(n) ==> 1 <= env.slots[n] < env.next
}

/// The name to slot mapping of a list of bindings; later ones win.
pub open spec fn bindings_map(entries: Seq<(String, i64)>) -> Map<Seq<char>, int>
    decreases entries.len(),
{
    if entries.len() == 0 {
        Map::empty()
    } else {
        bindings_map(entries.drop_last()).insert(entries.last().0@, entries.last().1 as int)
    }
}

/// Binds names to stack slots. Slots are handed out in increasing order
/// from 1; binding a name again gives it a new slot.
pub struct Env {
    next_slot: i64,
    entries: Vec<(String, i64)>,
}

impl View for Env {
    type V = EnvModel;

    closed spec fn view(&self) -> EnvModel {
        EnvModel { next: self.next_slot as int, slots: bindings_map(self.entries@) }
    }
}

impl Env {
    pub open spec fn wf(&self) -> bool {
        &&& slots_below_next(self@)
        &&& self@.next <= i64::MAX
    }

    /// An environment with no bindings.
    pub fn new() -> (r: Env)
        ensures
            r.wf(),
            r@ == empty_env(),
    {
        let r = Env { next_slot: 1, entries: Vec::new() };
        proof {
            assert(r@.slots =~= Map::empty());
        }
        r
    }

    /// Hands out the next slot without binding a name to it.
    pub fn reserve(&mut self) -> (slot: i64)
        requires
            old(self).wf(),
            old(self)@.next < i64::MAX,
        ensures
            final(self).wf(),
            slot == old(self)@.next,
            final(self)@ == reserved(old(self)@),
    {
        let slot = self.next_slot;
        self.next_slot = slot + 1;
        proof {
            assert(self@.slots == old(self)@.slots);
            assert forall|n: Seq<char>| #[trigger] self@.slots.contains_key(n) implies 1 <= self@.slots[n]
                < self@.next by {
                assert(old(self)@.slots.contains_key(n));
            }
        }
        slot
    }

    /// Makes `name` resolve to `slot`, a slot handed out before.
    pub fn bind(&mut self, name: String, slot: i64)
        requires
            old(self).wf(),
            1 <= slot < old(self)@.next,
        ensures
            final(self).wf(),
            final(self)@ == bound(old(self)@, name@, slot as int),
    {
        self.entries.push((name, slot));
        proof {
            assert(self.entries@.drop_last() =~= old(self).entries@);
            assert forall|n: Seq<char>| #[trigger] self@.slots.contains_key(n) implies 1 <= self@.slots[n]
                < self@.next by {
                if n != name@ {
                    assert(old(self)@.slots.contains_key(n));
                }
            }
        }
    }

    /// The slot that `name` resolves to, if it is bound.
    pub fn lookup(&self, name: &String) -> (r: Option<i64>)
        requires
            self.wf(),
        ensures
            match r {
                Some(slot) => self@.slots.contains_key(name@) && self@.slots[name@] == slot,
                None => !self@.slots.contains_key(name@),
            },
            r matches Some(slot) ==> 1 <= slot < self@.next,
    {
        let ghost all = self.entries@;
        let mut k: usize = self.entries.len();
        proof {
            assert(all.subrange(0, k as int) =~= all);
        }
        while k > 0
            invariant
                self.wf(),
                all == self.entries@,
                k <= all.len(),
                bindings_map(all.subrange(0, k as int)).contains_key(name@)
                    == bindings_map(all).contains_key(name@),
                bindings_map(all).contains_key(name@)
                    ==> bindings_map(all.subrange(0, k as int))[name@] == bindings_map(all)[name@],
            decreases k,
        {
            let ghost prefix = all.subrange(0, k as int);
            proof {
                assert(prefix.drop_last() =~= all.subrange(0, k - 1));
            }
            if self.entries[k - 1].0 == *name {
                proof {
                    assert(bindings_map(prefix).contains_key(name@));
                    assert(bindings_map(all).contains_key(name@));
                    assert(slots_below_next(self@));
                    assert(self@.slots.contains_key(name@));
                }
                return Some(self.entries[k - 1].1);
            }
            k = k - 1;
        }
        proof {
            assert(all.subrange(0, 0) =~= Seq::<(String, i64)>::empty());
        }
        None
    }
}

/// Binds `name` to a fresh slot and returns that slot.
pub fn add(name: String, env: &mut Env) -> (slot: i64)
    requires
        old(env).wf(),
        old(env)@.next < i64::MAX,
    ensures
        final(env).wf(),
        slot == old(env)@.next,
        final(env)@ == added(old(env)@, name@),
{
    let slot = env.reserve();
    env.bind(name, slot);
    slot
}

/// A binding takes a slot above every slot in use, and the name then
/// resolves to it.
pub proof fn lemma_added_slot_is_highest(env: EnvModel, name: Seq<char>)
    requires
        slots_below_next(env),
    ensures
        slots_below_next(added(env, name)),
        added(env, name).slots[name] == env.next,
        forall|n: Seq<char>| #[trigger] env.slots.contains_key(n) ==> env.slots[n] < added(env, name).slots[name],
{
    let after = added(env, name);
    assert forall|n: Seq<char>| #[trigger] after.slots.contains_key(n) implies 1 <= after.slots[n] < after.next by {
        if n != name {
            assert(env.slots.contains_key(n));
        }
    }
}

/// Binding `x`, then `y`, then `x` again hands out slots 1, 2 and 3, and
/// `x` then resolves to slot 3.
pub proof fn lemma_rebinding_slots(x: Seq<char>, y: Seq<char>)
    requires
        x != y,
    ensures
        added(empty_env(), x).slots[x] == 1,
        added(added(empty_env(), x), y).slots[y] == 2,
        added(added(added(empty_env(), x), y), x).slots[x] == 3,
        added(added(added(empty_env(), x), y), x).slots[y] == 2,
{
}

/// The next slot is one above the highest slot in use, or 1 when none is.
pub open spec fn next_follows_highest(env: EnvModel) -> bool {
    &&& slots_below_next(env)
    &&& (env.next == 1 || exists|n: Seq<char>| #[trigger] env.slots.contains_key(n) && env.slots[n] == env.next - 1)
}

/// In an environment built by bindings alone, each binding takes the slot
/// one above the highest slot in use (1 for the first), which is above every
/// slot in use, and the environment stays so built.
pub proof fn lemma_add_takes_highest_plus_one(env: EnvModel, name: Seq<char>)
    requires
        next_follows_highest(env),
    ensures
        next_follows_highest(added(env, name)),
        added(env, name).slots[name] == env.next,
        forall|n: Seq<char>| #[trigger] env.slots.contains_key(n) ==> env.slots[n] <= env.next - 1,
        env.next == 1 || exists|n: Seq<char>| #[trigger] env.slots.contains_key(n) && env.slots[n] == env.next - 1,
{
    lemma_added_slot_is_highest(env, name);
    let after = added(env, name);
    assert(after.slots.contains_key(name) && after.slots[name] == after.next - 1);
}

/// The empty environment is built by bindings alone.
pub proof fn lemma_empty_env_next_follows_highest()
    ensures
        next_follows_highest(empty_env()),
{
}

} // verus!
