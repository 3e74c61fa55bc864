use vstd::prelude::*;
use std::collections::HashMap;

use crate::input::KeySet;

verus! {

broadcast use vstd::std_specs::hash::group_hash_axioms;

/// What a key combination does: an action run when it is struck, or a pair of
/// actions run when it is pressed and when it is let go.
#[derive(Clone, Copy)]
pub enum Action<A> {
    Trigger { on_trigger: A },
    Discovery { on_press: A, on_release: A },
}

/// A key combination's behaviour: which of its keys set it off, whether a
/// held key's repeats set it off again, and what it does.
pub struct Keytest<A> {
    pub triggers: KeySet,
    pub is_repeatable: bool,
    pub action: Action<A>,
}

/// The key combinations, each identified by its set of keys, and the release
/// actions still waiting for their keys to be let go.
pub struct Keymap<A> {
    keytests: HashMap<u64, Keytest<A>>,
    waiting_releases: Vec<(KeySet, A)>,
}

/// A waiting release fires when some of its keys are no longer held and all of
/// them were held before this round of input.
pub open spec fn is_released<A>(entry: (KeySet, A), active: Set<Key>, different: Set<Key>) -> bool {
    &&& !entry.0@.subset_of(active)
    &&& entry.0@.subset_of(active.difference(different).union(different.difference(active)))
}

/// The release actions that fire, the latest registered first.
pub open spec fn released_actions<A>(s: Seq<(KeySet, A)>, active: Set<Key>, different: Set<Key>) -> Seq<A>
    decreases s.len(),
{
    if s.len() == 0 {
        Seq::empty()
    } else {
        released_actions(s.skip(1), active, different) + if is_released(s[0], active, different) {
            seq![s[0].1]
        } else {
            Seq::empty()
        }
    }
}

/// The waiting releases that do not fire, in order.
pub open spec fn still_waiting<A>(s: Seq<(KeySet, A)>, active: Set<Key>, different: Set<Key>) -> Seq<(KeySet, A)>
    decreases s.len(),
{
    if s.len() == 0 {
        Seq::empty()
    } else {
        (if is_released(s[0], active, different) { Seq::empty() } else { seq![s[0]] })
            + still_waiting(s.skip(1), active, different)
    }
}

/// Whether a combination's own keys were struck this round: freshly pressed
/// or repeated when it is repeatable, newly pressed otherwise.
pub open spec fn is_struck<A>(keytest: Keytest<A>, fresh: Set<Key>, different: Set<Key>) -> bool {
    !keytest.triggers@.intersect(if keytest.is_repeatable { fresh } else { different }).is_empty()
}

use crate::input::Key;

impl<A> Keymap<A> {
    /// The key combinations, by the number of their key set.
    pub closed spec fn keytests(&self) -> Map<u64, Keytest<A>> {
        self.keytests@
    }

    /// The release actions waiting for their keys, oldest first.
    pub closed spec fn waiting_releases(&self) -> Seq<(KeySet, A)> {
        self.waiting_releases@
    }

    pub fn new() -> (r: Self)
        ensures
            r.keytests() == Map::<u64, Keytest<A>>::empty(),
            r.waiting_releases().len() == 0,
    {
        Keymap { keytests: HashMap::new(), waiting_releases: Vec::new() }
    }

    /// Binds the combination of `modifiers` and `triggers`; striking one of
    /// the `triggers` while exactly those keys are held sets it off.
    pub fn insert(&mut self, modifiers: KeySet, triggers: KeySet, is_repeatable: bool, action: Action<A>)
        ensures
            final(self).keytests() == old(self).keytests().insert(
                modifiers.spec_bits() | triggers.spec_bits(),
                Keytest { triggers, is_repeatable, action },
            ),
            final(self).waiting_releases() == old(self).waiting_releases(),
    {
        let keys = modifiers.union(triggers);
        self.keytests.insert(keys.bits(), Keytest { triggers, is_repeatable, action });
    }
}


/// `different` holds a key that is no longer held.
pub open spec fn some_key_released(active: Set<Key>, different: Set<Key>) -> bool {
    !Set::<Key>::full().difference(active).intersect(different).is_empty()
}

/// What `execute_keymap` does to `before`, giving `after` and returning `actions`.
pub open spec fn executed<A>(
    before: Keymap<A>,
    after: Keymap<A>,
    active: KeySet,
    fresh: KeySet,
    different: KeySet,
    actions: Seq<A>,
) -> bool {
    let w = before.waiting_releases();
    let released = released_actions(w, active@, different@);
    let kept = still_waiting(w, active@, different@);
    &&& after.keytests() == before.keytests()
    &&& if before.keytests().contains_key(active.spec_bits()) {
        let keytest = before.keytests()[active.spec_bits()];
        match keytest.action {
            Action::Trigger { on_trigger } => {
                &&& actions == released + if is_struck(keytest, fresh@, different@) { seq![on_trigger] } else { Seq::empty() }
                &&& after.waiting_releases() == kept
            },
            Action::Discovery { on_press, on_release } => {
                let fires = is_struck(keytest, fresh@, different@) || some_key_released(active@, different@);
                &&& actions == released + if fires { seq![on_press] } else { Seq::empty() }
                &&& after.waiting_releases() == kept + if fires { seq![(active, on_release)] } else { Seq::empty() }
            },
        }
    } else {
        &&& actions == released
        &&& after.waiting_releases() == kept
    }
}

/// Decides which actions the keys set off this round, in the order they are
/// to be run: first the release actions whose keys were let go (the latest
/// registered first), then the action of the combination held now, if struck.
pub fn execute_keymap<A: Copy>(keymap: &mut Keymap<A>, active_keys: KeySet, fresh_keys: KeySet, different_keys: KeySet) -> (actions: Vec<A>)
    ensures
        executed(*old(keymap), *final(keymap), active_keys, fresh_keys, different_keys, actions@),
{
    let ghost w = keymap.waiting_releases@;
    let mut actions: Vec<A> = Vec::new();
    let mut i: usize = keymap.waiting_releases.len();
    let moved_keys = active_keys.symmetrical_difference(different_keys);
    assert(w.skip(w.len() as int) =~= Seq::<(KeySet, A)>::empty());
    assert(w.take(w.len() as int) =~= w);
    assert(w.take(w.len() as int) + Seq::<(KeySet, A)>::empty() =~= w);
    while i > 0
        invariant
            i <= w.len(),
            w == old(keymap).waiting_releases@,
            keymap.keytests@ == old(keymap).keytests@,
            moved_keys@ == active_keys@.difference(different_keys@).union(different_keys@.difference(active_keys@)),
            keymap.waiting_releases@ == w.take(i as int) + still_waiting(w.skip(i as int), active_keys@, different_keys@),
            actions@ == released_actions(w.skip(i as int), active_keys@, different_keys@),
        decreases i,
    {
        i -= 1;
        let entry = keymap.waiting_releases[i];
        let released = !entry.0.is_subset(active_keys) && entry.0.is_subset(moved_keys);
        proof {
            let t = w.skip(i as int);
            assert(t[0] == w[i as int]);
            assert(t.skip(1) =~= w.skip(i + 1));
            assert(w.take(i + 1) =~= w.take(i as int).push(w[i as int]));
        }
        if released {
            actions.push(entry.1);
            keymap.waiting_releases.remove(i);
            proof {
                assert(keymap.waiting_releases@ =~= w.take(i as int) + still_waiting(w.skip(i as int), active_keys@, different_keys@));
            }
        } else {
            proof {
                assert(keymap.waiting_releases@ =~= w.take(i as int) + still_waiting(w.skip(i as int), active_keys@, different_keys@));
                assert(actions@ =~= released_actions(w.skip(i as int), active_keys@, different_keys@));
            }
        }
    }
    assert(w.take(0) + still_waiting(w.skip(0), active_keys@, different_keys@) =~= still_waiting(w, active_keys@, different_keys@)) by {
        assert(w.skip(0) =~= w);
    }
    assert(w.skip(0) =~= w);
    match keymap.keytests.get(&active_keys.bits()) {
        Some(keytest) => {
            let struck = !keytest.triggers.intersection(if keytest.is_repeatable { fresh_keys } else { different_keys }).is_empty();
            match keytest.action {
                Action::Trigger { on_trigger } => {
                    if struck {
                        actions.push(on_trigger);
                    }
                    proof {
                        assert(actions@ =~= released_actions(w, active_keys@, different_keys@)
                            + if struck { seq![on_trigger] } else { Seq::empty() });
                    }
                },
                Action::Discovery { on_press, on_release } => {
                    let fires = struck || !active_keys.complement().intersection(different_keys).is_empty();
                    if fires {
                        actions.push(on_press);
                        keymap.waiting_releases.push((active_keys, on_release));
                    }
                    proof {
                        assert(actions@ =~= released_actions(w, active_keys@, different_keys@)
                            + if fires { seq![on_press] } else { Seq::empty() });
                        assert(keymap.waiting_releases@ =~= still_waiting(w, active_keys@, different_keys@)
                            + if fires { seq![(active_keys, on_release)] } else { Seq::empty() });
                    }
                },
            }
        },
        None => {},
    }
    actions
}

proof fn lemma_released_push<A>(s: Seq<(KeySet, A)>, e: (KeySet, A), active: Set<Key>, different: Set<Key>)
    ensures
        released_actions(s.push(e), active, different) == (if is_released(e, active, different) {
            seq![e.1]
        } else {
            Seq::empty()
        }) + released_actions(s, active, different),
    decreases s.len(),
{
    if s.len() == 0 {
        assert(s.push(e).skip(1) =~= Seq::<(KeySet, A)>::empty());
        assert(s.push(e)[0] == e);
        assert(released_actions(Seq::<(KeySet, A)>::empty(), active, different) =~= Seq::<A>::empty());
        assert(released_actions(s, active, different) =~= Seq::<A>::empty());
        assert(released_actions(s.push(e), active, different) =~= (if is_released(e, active, different) {
            seq![e.1]
        } else {
            Seq::empty()
        }));
    } else {
        assert(s.push(e).skip(1) =~= s.skip(1).push(e));
        lemma_released_push(s.skip(1), e, active, different);
        assert(released_actions(s.push(e), active, different) =~= (if is_released(e, active, different) {
            seq![e.1]
        } else {
            Seq::empty()
        }) + released_actions(s, active, different));
    }
}

/// A combination bound to a pair of actions runs its press action when one of
/// its keys is newly pressed (a newly pressed key is also a fresh one), and
/// then, once all its keys are let go together, runs its release action first
/// of all.
pub proof fn law_discovery_release_follows_press<A>(
    k0: Keymap<A>,
    k1: Keymap<A>,
    k2: Keymap<A>,
    held: KeySet,
    fresh: KeySet,
    pressed: KeySet,
    nothing: KeySet,
    first: Seq<A>,
    second: Seq<A>,
)
    requires
        k0.keytests().contains_key(held.spec_bits()),
        k0.keytests()[held.spec_bits()].action is Discovery,
        !k0.keytests()[held.spec_bits()].triggers@.intersect(pressed@).is_empty(),
        pressed@.subset_of(held@),
        pressed@.subset_of(fresh@),
        executed(k0, k1, held, fresh, pressed, first),
        nothing@ == Set::<Key>::empty(),
        !held@.is_empty(),
        executed(k1, k2, nothing, nothing, held, second),
    ensures
        first.last() == k0.keytests()[held.spec_bits()].action->on_press,
        second[0] == k0.keytests()[held.spec_bits()].action->on_release,
{
    let keytest = k0.keytests()[held.spec_bits()];
    let entry = (held, keytest.action->on_release);
    let kept = still_waiting(k0.waiting_releases(), held@, pressed@);
    assert(is_struck(keytest, fresh@, pressed@)) by {
        let k = keytest.triggers@.intersect(pressed@).choose();
        assert(keytest.triggers@.intersect(pressed@).contains(k));
        assert(keytest.triggers@.intersect(fresh@).contains(k));
    }
    assert(k1.waiting_releases() == kept.push(entry));
    assert(is_released(entry, nothing@, held@)) by {
        assert(!held@.subset_of(nothing@));
        assert(held@.subset_of(nothing@.difference(held@).union(held@.difference(nothing@))));
    }
    lemma_released_push(kept, entry, nothing@, held@);
}

/// A combination bound to a pair of actions whose keys are exactly the keys
/// held runs its press action, and waits to run its release action, whenever
/// some key was let go this round, even if none of its own keys changed (as
/// when Control is let go while Space stays held).
pub proof fn law_discovery_fires_when_a_key_is_let_go<A>(
    k0: Keymap<A>,
    k1: Keymap<A>,
    active: KeySet,
    fresh: KeySet,
    different: KeySet,
    actions: Seq<A>,
    let_go: Key,
)
    requires
        k0.keytests().contains_key(active.spec_bits()),
        k0.keytests()[active.spec_bits()].action is Discovery,
        different@.contains(let_go),
        !active@.contains(let_go),
        executed(k0, k1, active, fresh, different, actions),
    ensures
        actions.len() > 0,
        actions.last() == k0.keytests()[active.spec_bits()].action->on_press,
        k1.waiting_releases().len() > 0,
        k1.waiting_releases().last() == (active, k0.keytests()[active.spec_bits()].action->on_release),
{
    assert(Set::<Key>::full().difference(active@).intersect(different@).contains(let_go));
}

/// A combination bound to one action, whose keys are exactly the keys held,
/// runs it last when one of its trigger keys was newly pressed this round (or,
/// for a repeatable one, pressed or repeated), and not at all when none of its
/// trigger keys was pressed, repeated or let go. With nothing bound to the
/// held keys, only release actions run.
pub proof fn law_trigger_fires_when_struck<A>(
    k0: Keymap<A>,
    k1: Keymap<A>,
    active: KeySet,
    fresh: KeySet,
    different: KeySet,
    actions: Seq<A>,
    key: Key,
)
    requires
        executed(k0, k1, active, fresh, different, actions),
    ensures
        k0.keytests().contains_key(active.spec_bits()) && k0.keytests()[active.spec_bits()].action is Trigger
            && k0.keytests()[active.spec_bits()].triggers@.contains(key)
            && (if k0.keytests()[active.spec_bits()].is_repeatable { fresh@ } else { different@ }).contains(key)
            ==> actions.len() > 0 && actions.last() == k0.keytests()[active.spec_bits()].action->on_trigger,
        k0.keytests().contains_key(active.spec_bits())
            && k0.keytests()[active.spec_bits()].triggers@.disjoint(fresh@.union(different@))
            && different@.subset_of(active@)
            ==> actions == released_actions(k0.waiting_releases(), active@, different@),
        !k0.keytests().contains_key(active.spec_bits()) ==> actions == released_actions(k0.waiting_releases(), active@, different@),
{
    if k0.keytests().contains_key(active.spec_bits()) {
        let keytest = k0.keytests()[active.spec_bits()];
        let strikers = if keytest.is_repeatable { fresh@ } else { different@ };
        if keytest.triggers@.contains(key) && strikers.contains(key) {
            assert(keytest.triggers@.intersect(strikers).contains(key));
        }
        if keytest.triggers@.disjoint(fresh@.union(different@)) && different@.subset_of(active@) {
            assert(keytest.triggers@.intersect(strikers) =~= Set::<Key>::empty());
            assert(Set::<Key>::full().difference(active@).intersect(different@) =~= Set::<Key>::empty());
            let released = released_actions(k0.waiting_releases(), active@, different@);
            assert(released + Seq::<A>::empty() =~= released);
        }
    }
}

/// The keys held before this round: those held now that did not change, and
/// those that changed and are not held now.
pub open spec fn held_before(active: Set<Key>, different: Set<Key>) -> Set<Key> {
    active.difference(different).union(different.difference(active))
}

/// A release action waiting for keys that were all held before this round
/// runs first of all as soon as one of them is let go, and stops waiting;
/// while all its keys stay held it keeps waiting and does not run.
pub proof fn law_release_runs_when_its_keys_are_let_go<A>(
    k0: Keymap<A>,
    k1: Keymap<A>,
    active: KeySet,
    fresh: KeySet,
    different: KeySet,
    actions: Seq<A>,
    entry: (KeySet, A),
    let_go: Key,
)
    requires
        k0.waiting_releases() == seq![entry],
        executed(k0, k1, active, fresh, different, actions),
    ensures
        entry.0@.subset_of(held_before(active@, different@)) && entry.0@.contains(let_go) && !active@.contains(let_go) ==> {
            &&& actions.len() > 0
            &&& actions[0] == entry.1
            &&& k1.waiting_releases().len() <= 1
            &&& k1.waiting_releases().len() == 1 ==> k1.waiting_releases()[0].0 == active
        },
        entry.0@.subset_of(active@) ==> {
            &&& k1.waiting_releases().len() > 0
            &&& k1.waiting_releases()[0] == entry
            &&& released_actions(k0.waiting_releases(), active@, different@).len() == 0
        },
{
    let w = k0.waiting_releases();
    let empty = Seq::<(KeySet, A)>::empty();
    assert(w.skip(1) =~= empty);
    assert(w[0] == entry);
    assert(released_actions(empty, active@, different@) =~= Seq::<A>::empty());
    assert(still_waiting(empty, active@, different@) =~= empty);
    let released = released_actions(w, active@, different@);
    let kept = still_waiting(w, active@, different@);
    if is_released(entry, active@, different@) {
        assert(released =~= seq![entry.1]);
        assert(kept =~= empty);
    } else {
        assert(released =~= Seq::<A>::empty());
        assert(kept =~= seq![entry]);
    }
    if entry.0@.contains(let_go) && !active@.contains(let_go) {
        assert(!entry.0@.subset_of(active@));
    }
}

/// Two waiting release actions that are both let go run in reverse order of
/// their registration: the one registered last runs first.
pub proof fn law_releases_run_latest_first<A>(
    k0: Keymap<A>,
    k1: Keymap<A>,
    active: KeySet,
    fresh: KeySet,
    different: KeySet,
    actions: Seq<A>,
    first: (KeySet, A),
    second: (KeySet, A),
)
    requires
        k0.waiting_releases() == seq![first, second],
        is_released(first, active@, different@),
        is_released(second, active@, different@),
        executed(k0, k1, active, fresh, different, actions),
    ensures
        actions.len() >= 2,
        actions[0] == second.1,
        actions[1] == first.1,
{
    let w = k0.waiting_releases();
    let empty = Seq::<(KeySet, A)>::empty();
    assert(w.skip(1) =~= seq![second]);
    assert(w.skip(1).skip(1) =~= empty);
    assert(w[0] == first);
    assert(w.skip(1)[0] == second);
    assert(released_actions(empty, active@, different@) =~= Seq::<A>::empty());
    assert(released_actions(w.skip(1), active@, different@) =~= seq![second.1]);
    assert(released_actions(w, active@, different@) =~= seq![second.1, first.1]);
}

} // verus!
