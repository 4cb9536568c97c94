//! Chords, the actions bound to them, and the table that binds them.

use vstd::prelude::*;
use crate::keys::{modifiers2mask, modifiers_mask, Code, Modifiers};

verus! {

/// An observed hotkey chord: an optional set of modifier keys and one key.
/// The modifier keys are held as their HID modifier bitmask.
#[derive(Clone, Copy, Debug, PartialEq, Eq, Hash, Structural)]
pub struct Trigger {
    pub modifiers: Option<u8>,
    pub code: Code,
}

/// What a chord sets off.
#[derive(Clone, Copy, Debug, PartialEq, Eq, Hash, Structural)]
pub enum Action {
    /// Emulate this key combination: an optional HID modifier bitmask and
    /// one key.
    Key(Option<u8>, Code),
    /// Reserved for a later extension; nothing is emulated for it.
    Smart,
}

impl Trigger {
    /// The chord of a modifier set and a key as the host names them: the
    /// set counts as its HID modifier bitmask, and a set with the empty
    /// bitmask counts as none.
    pub open spec fn of(modifiers: Option<Modifiers>, code: Code) -> Trigger {
        Trigger { modifiers: modifiers_mask(modifiers), code }
    }

    /// The chord of a modifier set and a key as the host names them.
    pub fn new(modifiers: Option<Modifiers>, code: Code) -> (t: Trigger)
        ensures
            t == Trigger::of(modifiers, code),
    {
        Trigger { modifiers: modifiers2mask(&modifiers), code }
    }
}

impl Action {
    /// The key action of a modifier set and a key as the host names them:
    /// the set counts as its HID modifier bitmask, and a set with the empty
    /// bitmask counts as none.
    pub open spec fn key_of(modifiers: Option<Modifiers>, code: Code) -> Action {
        Action::Key(modifiers_mask(modifiers), code)
    }

    /// The key action of a modifier set and a key as the host names them.
    pub fn key(modifiers: Option<Modifiers>, code: Code) -> (a: Action)
        ensures
            a == Action::key_of(modifiers, code),
    {
        Action::Key(modifiers2mask(&modifiers), code)
    }
}

/// A list of bindings in which `t` is bound at some place.
pub open spec fn has_trigger(es: Seq<(Trigger, Action)>, t: Trigger) -> bool {
    exists|i: int| 0 <= i < es.len() && (#[trigger] es[i]).0 == t
}

/// No chord is bound at two places of the list.
pub open spec fn distinct_triggers(es: Seq<(Trigger, Action)>) -> bool {
    forall|i: int, j: int| 0 <= i < j < es.len() ==> (#[trigger] es[i]).0 != (#[trigger] es[j]).0
}

/// The dictionary that a list of bindings denotes when it is read from
/// first to last and a later binding of a chord overrides an earlier one.
pub open spec fn entries_map(es: Seq<(Trigger, Action)>) -> Map<Trigger, Action>
    decreases es.len(),
{
    if es.len() == 0 {
        Map::empty()
    } else {
        entries_map(es.drop_last()).insert(es.last().0, es.last().1)
    }
}

/// The list after `t` is bound to `a`: the binding of `t` is overwritten
/// where it stands, or the new binding is appended if `t` was unbound.
pub open spec fn put(es: Seq<(Trigger, Action)>, t: Trigger, a: Action) -> Seq<(Trigger, Action)> {
    if has_trigger(es, t) {
        let i = choose|i: int| 0 <= i < es.len() && (#[trigger] es[i]).0 == t;
        es.update(i, (t, a))
    } else {
        es.push((t, a))
    }
}

/// The chords bound in `entries_map(es)` are those bound somewhere in `es`.
pub proof fn lemma_entries_map_dom(es: Seq<(Trigger, Action)>, t: Trigger)
    ensures
        entries_map(es).contains_key(t) <==> has_trigger(es, t),
    decreases es.len(),
{
    if es.len() > 0 {
        let front = es.drop_last();
        lemma_entries_map_dom(front, t);
        if has_trigger(front, t) {
            let i = choose|i: int| 0 <= i < front.len() && (#[trigger] front[i]).0 == t;
            assert(es[i].0 == t);
        }
        if has_trigger(es, t) {
            let i = choose|i: int| 0 <= i < es.len() && (#[trigger] es[i]).0 == t;
            if i < es.len() - 1 {
                assert(front[i].0 == t);
            }
        }
    }
}

/// In a list without repeated chords every binding is the one that the
/// dictionary holds.
pub proof fn lemma_entries_map_value(es: Seq<(Trigger, Action)>, i: int)
    requires
        distinct_triggers(es),
        0 <= i < es.len(),
    ensures
        entries_map(es).contains_key(es[i].0),
        entries_map(es)[es[i].0] == es[i].1,
    decreases es.len(),
{
    let front = es.drop_last();
    if i < es.len() - 1 {
        assert(forall|j: int| 0 <= j < front.len() ==> front[j] == es[j]);
        lemma_entries_map_value(front, i);
        assert(front[i] == es[i]);
        assert(es[i].0 != es[es.len() - 1].0);
    }
}

/// Binding one more chord in a list without repeats keeps it free of
/// repeats and inserts the binding into the dictionary.
pub proof fn lemma_put(es: Seq<(Trigger, Action)>, t: Trigger, a: Action)
    requires
        distinct_triggers(es),
    ensures
        distinct_triggers(put(es, t, a)),
        entries_map(put(es, t, a)) == entries_map(es).insert(t, a),
{
    let after = put(es, t, a);
    if has_trigger(es, t) {
        let i = choose|i: int| 0 <= i < es.len() && (#[trigger] es[i]).0 == t;
        assert(after.len() == es.len());
        assert(forall|j: int| 0 <= j < es.len() ==> (#[trigger] after[j]).0 == es[j].0);
        assert(distinct_triggers(after));
        assert forall|k: Trigger| entries_map(after).contains_key(k) <==> entries_map(es).insert(
            t,
            a,
        ).contains_key(k) by {
            lemma_entries_map_dom(after, k);
            lemma_entries_map_dom(es, k);
            if has_trigger(after, k) {
                let j = choose|j: int| 0 <= j < after.len() && (#[trigger] after[j]).0 == k;
                assert(es[j].0 == k);
            }
            if has_trigger(es, k) {
                let j = choose|j: int| 0 <= j < es.len() && (#[trigger] es[j]).0 == k;
                assert(after[j].0 == k);
            }
        }
        assert forall|k: Trigger| entries_map(after).contains_key(k) implies entries_map(after)[k]
            == entries_map(es).insert(t, a)[k] by {
            lemma_entries_map_dom(after, k);
            let j = choose|j: int| 0 <= j < after.len() && (#[trigger] after[j]).0 == k;
            lemma_entries_map_value(after, j);
            if k != t {
                assert(j != i);
                assert(after[j] == es[j]);
                lemma_entries_map_value(es, j);
            } else {
                if j < i {
                    assert(after[j].0 != after[i].0);
                } else if i < j {
                    assert(after[i].0 != after[j].0);
                }
            }
        }
        assert(entries_map(after) =~= entries_map(es).insert(t, a));
    } else {
        assert(after.drop_last() =~= es);
        assert forall|i: int, j: int| 0 <= i < j < after.len() implies (#[trigger] after[i]).0 != (
        #[trigger] after[j]).0 by {
            if j == es.len() {
                assert(es[i].0 != t);
            } else {
                assert(after[i] == es[i] && after[j] == es[j]);
            }
        }
    }
}

/// The table that binds chords to actions. A chord is bound at most once;
/// the bindings keep the order in which their chords were first bound.
#[derive(Debug)]
pub struct Mapping {
    entries: Vec<(Trigger, Action)>,
}

impl View for Mapping {
    type V = Map<Trigger, Action>;

    /// The table as a dictionary.
    closed spec fn view(&self) -> Map<Trigger, Action> {
        entries_map(self.entries@)
    }
}

impl Mapping {
    /// The bindings in their order.
    pub closed spec fn entries(&self) -> Seq<(Trigger, Action)> {
        self.entries@
    }

    /// No chord is bound twice.
    #[verifier::type_invariant]
    pub closed spec fn wf(&self) -> bool {
        distinct_triggers(self.entries@)
    }

    /// What `wf`, `entries` and the view say of each other.
    pub proof fn lemma_view(self)
        ensures
            self@ == entries_map(self.entries()),
            self.wf() == distinct_triggers(self.entries()),
    {
    }

    /// The empty table.
    pub fn new() -> (m: Mapping)
        ensures
            m@ == Map::<Trigger, Action>::empty(),
            m.entries() == Seq::<(Trigger, Action)>::empty(),
            m.wf(),
    {
        Mapping { entries: Vec::new() }
    }

    /// Binds `trigger` to `action`, in place of what it was bound to.
    pub fn add_mapping(&mut self, trigger: Trigger, action: Action)
        ensures
            final(self)@ == old(self)@.insert(trigger, action),
            final(self).entries() == put(old(self).entries(), trigger, action),
            final(self).wf(),
    {
        proof {
            use_type_invariant(&*self);
            lemma_put(self.entries@, trigger, action);
        }
        let place = self.place_of(&trigger);
        let mut bindings: Vec<(Trigger, Action)> = Vec::new();
        core::mem::swap(&mut self.entries, &mut bindings);
        match place {
            Some(i) => {
                bindings.set(i, (trigger, action));
            },
            None => {
                bindings.push((trigger, action));
            },
        }
        self.entries = bindings;
    }

    /// The place at which `trigger` is bound.
    fn place_of(&self, trigger: &Trigger) -> (place: Option<usize>)
        ensures
            match place {
                Some(i) => i < self.entries@.len() && self.entries@[i as int].0 == *trigger
                    && forall|a: Action|
                    put(self.entries@, *trigger, a) == self.entries@.update(i as int, (*trigger, a)),
                None => !has_trigger(self.entries@, *trigger),
            },
    {
        proof {
            use_type_invariant(self);
        }
        let n: usize = self.entries.len();
        let mut i: usize = 0;
        while i < n
            invariant
                n == self.entries.len(),
                i <= n,
                distinct_triggers(self.entries@),
                forall|j: int| 0 <= j < i ==> (#[trigger] self.entries@[j]).0 != *trigger,
            decreases n - i,
        {
            if self.entries[i].0 == *trigger {
                proof {
                    let es = self.entries@;
                    let k = choose|k: int| 0 <= k < es.len() && (#[trigger] es[k]).0 == *trigger;
                    if k < i {
                        assert(es[k].0 != es[i as int].0);
                    } else if (i as int) < k {
                        assert(es[i as int].0 != es[k].0);
                    }
                }
                return Some(i);
            }
            i += 1;
        }
        proof {
            let es = self.entries@;
            if has_trigger(es, *trigger) {
                let k = choose|k: int| 0 <= k < es.len() && (#[trigger] es[k]).0 == *trigger;
                assert(es[k].0 != *trigger);
            }
        }
        None
    }

    /// The action that `trigger` is bound to, `None` if it is unbound.
    pub fn lookup(&self, trigger: &Trigger) -> (found: Option<Action>)
        ensures
            found == self@.get(*trigger),
    {
        proof {
            use_type_invariant(self);
            lemma_entries_map_dom(self.entries@, *trigger);
        }
        match self.place_of(trigger) {
            Some(i) => {
                proof {
                    lemma_entries_map_value(self.entries@, i as int);
                }
                Some(self.entries[i].1)
            },
            None => None,
        }
    }

    /// Swaps the whole table for `table`.
    pub fn replace(&mut self, table: Mapping)
        ensures
            final(self)@ == table@,
            final(self).entries() == table.entries(),
            final(self).wf(),
    {
        proof {
            use_type_invariant(&table);
        }
        *self = table;
    }

    /// The number of bound chords.
    pub fn len(&self) -> (n: usize)
        ensures
            n == self.entries().len(),
            n == self@.dom().len(),
    {
        proof {
            use_type_invariant(self);
            lemma_entries_map_len(self.entries@);
        }
        self.entries.len()
    }

    /// Whether no chord is bound.
    pub fn is_empty(&self) -> (empty: bool)
        ensures
            empty == (self.entries().len() == 0),
            empty == (self@ == Map::<Trigger, Action>::empty()),
    {
        proof {
            use_type_invariant(self);
            lemma_entries_map_len(self.entries@);
            if self.entries@.len() == 0 {
                assert(self@ =~= Map::<Trigger, Action>::empty());
            } else {
                assert(self@.dom().len() > 0);
            }
        }
        self.entries.len() == 0
    }

    /// The binding at place `i`, `None` if there are no more than `i`
    /// bindings.
    pub fn entry(&self, i: usize) -> (e: Option<(Trigger, Action)>)
        ensures
            e == if i < self.entries().len() {
                Some(self.entries()[i as int])
            } else {
                None
            },
    {
        if i < self.entries.len() {
            Some(self.entries[i])
        } else {
            None
        }
    }

    /// The binding at place `i` of a table that has one there.
    pub(crate) fn binding(&self, i: usize) -> (e: (Trigger, Action))
        requires
            i < self.entries().len(),
        ensures
            e == self.entries()[i as int],
    {
        self.entries[i]
    }
}

/// A list without repeated chords denotes a dictionary of as many bindings.
pub proof fn lemma_entries_map_len(es: Seq<(Trigger, Action)>)
    requires
        distinct_triggers(es),
    ensures
        entries_map(es).dom().finite(),
        entries_map(es).dom().len() == es.len(),
    decreases es.len(),
{
    if es.len() > 0 {
        let front = es.drop_last();
        assert(forall|j: int| 0 <= j < front.len() ==> front[j] == es[j]);
        lemma_entries_map_len(front);
        lemma_entries_map_dom(front, es.last().0);
        if has_trigger(front, es.last().0) {
            let i = choose|i: int| 0 <= i < front.len() && (#[trigger] front[i]).0 == es.last().0;
            assert(es[i].0 != es[es.len() - 1].0);
        }
    }
}

/// The envelope of the wire: one chord that fired, or a whole table.
#[derive(Debug)]
pub enum Frame {
    Trigger(Trigger),
    Mapping(Mapping),
}

/// A frame as a plain value: a table counts as its dictionary.
pub enum FrameView {
    Trigger(Trigger),
    Mapping(Map<Trigger, Action>),
}

impl View for Frame {
    type V = FrameView;

    open spec fn view(&self) -> FrameView {
        match *self {
            Frame::Trigger(t) => FrameView::Trigger(t),
            Frame::Mapping(m) => FrameView::Mapping(m@),
        }
    }
}

} // verus!
