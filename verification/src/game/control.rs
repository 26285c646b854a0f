use vstd::prelude::*;
use std::collections::HashMap;

verus! {

broadcast use vstd::std_specs::hash::group_hash_axioms;

/// The state of one control in the last frame and in this one.
#[derive(Clone, Copy)]
struct Control {
    last_state: bool,
    this_state: bool,
}

/// Named controls, each bound to one key, with what they were in the last frame and now.
/// Keys are identified by their key code.
pub struct ControlSet {
    controls: Vec<Control>,
    by_name: Vec<(String, usize)>,
    by_code: HashMap<u32, usize>,
}

/// The entry of an association list that holds `name`, if any.
pub open spec fn find_name(entries: Seq<(Seq<char>, usize)>, name: Seq<char>) -> Option<usize>
    decreases entries.len(),
{
    if entries.len() == 0 {
        None
    } else if entries.last().0 == name {
        Some(entries.last().1)
    } else {
        find_name(entries.drop_last(), name)
    }
}

impl ControlSet {
    /// Each control as (held in the last frame, held in this frame).
    pub closed spec fn states(&self) -> Seq<(bool, bool)> {
        self.controls@.map_values(|c: Control| (c.last_state, c.this_state))
    }

    /// The control that each name stands for.
    pub closed spec fn names(&self) -> Map<Seq<char>, usize> {
        Map::new(
            |name: Seq<char>| find_name(self.name_entries(), name) is Some,
            |name: Seq<char>| find_name(self.name_entries(), name).unwrap(),
        )
    }

    closed spec fn name_entries(&self) -> Seq<(Seq<char>, usize)> {
        self.by_name@.map_values(|e: (String, usize)| (e.0@, e.1))
    }

    /// The control that each key code is bound to.
    pub closed spec fn bindings(&self) -> Map<u32, usize> {
        self.by_code@
    }

    /// Every name and every key stands for a control of the set.
    pub open spec fn wf(&self) -> bool {
        &&& forall|name: Seq<char>|
            #[trigger] self.names().contains_key(name) ==> self.names()[name] < self.states().len()
        &&& forall|code: u32|
            #[trigger] self.bindings().contains_key(code) ==> self.bindings()[code]
                < self.states().len()
    }

    /// Whether the control named `name` is held in this frame (false for an unknown name).
    pub open spec fn held(&self, name: Seq<char>) -> bool {
        self.names().contains_key(name) && self.states()[self.names()[name] as int].1
    }

    /// Whether the control named `name` went down in this frame.
    pub open spec fn pressed(&self, name: Seq<char>) -> bool {
        self.names().contains_key(name) && self.states()[self.names()[name] as int].1
            && !self.states()[self.names()[name] as int].0
    }

    /// Whether the control named `name` went up in this frame.
    pub open spec fn released(&self, name: Seq<char>) -> bool {
        self.names().contains_key(name) && !self.states()[self.names()[name] as int].1
            && self.states()[self.names()[name] as int].0
    }

    pub fn new() -> (r: ControlSet)
        ensures
            r.wf(),
            r.states().len() == 0,
            r.names() == Map::<Seq<char>, usize>::empty(),
            r.bindings() == Map::<u32, usize>::empty(),
    {
        let r = ControlSet { controls: Vec::new(), by_name: Vec::new(), by_code: HashMap::new() };
        assert(r.names() =~= Map::<Seq<char>, usize>::empty());
        r
    }

    fn lookup_name(&self, name: &str) -> (r: Option<usize>)
        ensures
            r == find_name(self.name_entries(), name@),
    {
        let key = name.to_owned();
        let mut i = self.by_name.len();
        proof {
            assert(self.name_entries().take(i as int) =~= self.name_entries());
        }
        while i > 0
            invariant
                i <= self.by_name@.len(),
                key@ == name@,
                find_name(self.name_entries(), name@) == find_name(
                    self.name_entries().take(i as int),
                    name@,
                ),
            decreases i,
        {
            let entry = &self.by_name[i - 1];
            proof {
                assert(self.name_entries().take(i as int).drop_last() =~= self.name_entries().take(
                    i - 1,
                ));
            }
            if entry.0 == key {
                return Some(entry.1);
            }
            i = i - 1;
        }
        None
    }

    /// Adds a control that starts out released, under `name` and bound to the key `binding`.
    /// A name or key used before now stands for the new control.
    pub fn add_control(&mut self, name: &str, binding: u32)
        requires
            old(self).wf(),
            old(self).states().len() < usize::MAX,
        ensures
            final(self).wf(),
            final(self).states() == old(self).states().push((false, false)),
            final(self).names() == old(self).names().insert(name@, old(self).states().len() as usize),
            final(self).bindings() == old(self).bindings().insert(
                binding,
                old(self).states().len() as usize,
            ),
    {
        let index = self.controls.len();
        self.controls.push(Control { last_state: false, this_state: false });
        self.by_name.push((name.to_owned(), index));
        self.by_code.insert(binding, index);
        proof {
            assert(self.states() =~= old(self).states().push((false, false)));
            assert(self.name_entries().drop_last() =~= old(self).name_entries());
            assert(self.names() =~= old(self).names().insert(name@, index));
            assert forall|n: Seq<char>| #[trigger] self.names().contains_key(n) implies self.names()[n]
                < self.states().len() by {
                if n != name@ {
                    assert(old(self).names().contains_key(n));
                }
            }
            assert forall|code: u32| #[trigger] self.bindings().contains_key(code) implies self.bindings()[code]
                < self.states().len() by {
                if code != binding {
                    assert(old(self).bindings().contains_key(code));
                }
            }
        }
    }

    /// Moves on to the next frame: what is held now becomes what was held last frame.
    /// Call this before passing in any key events.
    pub fn tick(&mut self)
        requires
            old(self).wf(),
        ensures
            final(self).wf(),
            final(self).names() == old(self).names(),
            final(self).bindings() == old(self).bindings(),
            final(self).states() == old(self).states().map_values(|s: (bool, bool)| (s.1, s.1)),
    {
        let mut i: usize = 0;
        while i < self.controls.len()
            invariant
                i <= self.controls@.len(),
                self.controls@.len() == old(self).controls@.len(),
                self.by_name == old(self).by_name,
                self.by_code == old(self).by_code,
                forall|j: int|
                    0 <= j < i ==> self.controls@[j] == (Control {
                        last_state: old(self).controls@[j].this_state,
                        this_state: old(self).controls@[j].this_state,
                    }),
                forall|j: int|
                    i <= j < self.controls@.len() ==> self.controls@[j] == old(self).controls@[j],
            decreases self.controls@.len() - i,
        {
            let mut control = self.controls[i];
            control.last_state = control.this_state;
            self.controls.set(i, control);
            i = i + 1;
        }
        proof {
            assert(self.states() =~= old(self).states().map_values(|s: (bool, bool)| (s.1, s.1)));
            assert(self.names() == old(self).names());
            assert(self.bindings() == old(self).bindings());
        }
    }

    fn set_held(&mut self, code: u32, held: bool)
        requires
            old(self).wf(),
        ensures
            final(self).wf(),
            final(self).names() == old(self).names(),
            final(self).bindings() == old(self).bindings(),
            final(self).states() == if old(self).bindings().contains_key(code) {
                let i = old(self).bindings()[code] as int;
                old(self).states().update(i, (old(self).states()[i].0, held))
            } else {
                old(self).states()
            },
    {
        if let Some(index) = self.by_code.get(&code) {
            let index = *index;
            assert(self.bindings().contains_key(code));
            let mut control = self.controls[index];
            control.this_state = held;
            self.controls.set(index, control);
            proof {
                let i = index as int;
                assert(self.states() =~= old(self).states().update(i, (old(self).states()[i].0, held)));
                assert(self.names() == old(self).names());
                assert(self.bindings() == old(self).bindings());
            }
        }
    }

    /// The key `code` went down: the control bound to it, if any, is held.
    pub fn on_pressed(&mut self, code: u32)
        requires
            old(self).wf(),
        ensures
            final(self).wf(),
            final(self).names() == old(self).names(),
            final(self).bindings() == old(self).bindings(),
            final(self).states() == if old(self).bindings().contains_key(code) {
                let i = old(self).bindings()[code] as int;
                old(self).states().update(i, (old(self).states()[i].0, true))
            } else {
                old(self).states()
            },
    {
        self.set_held(code, true);
    }

    /// The key `code` went up: the control bound to it, if any, is no longer held.
    pub fn on_released(&mut self, code: u32)
        requires
            old(self).wf(),
        ensures
            final(self).wf(),
            final(self).names() == old(self).names(),
            final(self).bindings() == old(self).bindings(),
            final(self).states() == if old(self).bindings().contains_key(code) {
                let i = old(self).bindings()[code] as int;
                old(self).states().update(i, (old(self).states()[i].0, false))
            } else {
                old(self).states()
            },
    {
        self.set_held(code, false);
    }

    /// True if the control is currently being held down.
    pub fn is_held(&self, name: &str) -> (r: bool)
        requires
            self.wf(),
        ensures
            r == self.held(name@),
    {
        if let Some(index) = self.lookup_name(name) {
            assert(self.names().contains_key(name@));
            self.controls[index].this_state
        } else {
            false
        }
    }

    /// True if the control was just pressed this frame.
    pub fn is_pressed(&self, name: &str) -> (r: bool)
        requires
            self.wf(),
        ensures
            r == self.pressed(name@),
    {
        if let Some(index) = self.lookup_name(name) {
            assert(self.names().contains_key(name@));
            let control = self.controls[index];
            control.this_state && !control.last_state
        } else {
            false
        }
    }

    /// True if the control was just released this frame.
    pub fn is_released(&self, name: &str) -> (r: bool)
        requires
            self.wf(),
        ensures
            r == self.released(name@),
    {
        if let Some(index) = self.lookup_name(name) {
            assert(self.names().contains_key(name@));
            let control = self.controls[index];
            !control.this_state && control.last_state
        } else {
            false
        }
    }
}

/// Law: a new frame settles every control: no control was just pressed or just released,
/// and what is held stays held.
pub proof fn lemma_tick_settles(before: ControlSet, after: ControlSet, name: Seq<char>)
    requires
        before.wf(),
        after.names() == before.names(),
        after.states() == before.states().map_values(|s: (bool, bool)| (s.1, s.1)),
    ensures
        after.held(name) == before.held(name),
        !after.pressed(name),
        !after.released(name),
{
}

/// Law: once the key bound to a control goes down, every name of that control is held, and it
/// was just pressed exactly when it was not held in the last frame; once the key goes up, it is
/// not held, and it was just released exactly when it was held in the last frame.
pub proof fn lemma_key_moves_control(
    before: ControlSet,
    pressed: ControlSet,
    released: ControlSet,
    code: u32,
    name: Seq<char>,
)
    requires
        before.wf(),
        before.bindings().contains_key(code),
        before.names().contains_key(name),
        before.names()[name] == before.bindings()[code],
        pressed.names() == before.names(),
        released.names() == before.names(),
        pressed.states() == before.states().update(
            before.bindings()[code] as int,
            (before.states()[before.bindings()[code] as int].0, true),
        ),
        released.states() == before.states().update(
            before.bindings()[code] as int,
            (before.states()[before.bindings()[code] as int].0, false),
        ),
    ensures
        pressed.held(name),
        pressed.pressed(name) == !before.states()[before.names()[name] as int].0,
        !released.held(name),
        released.released(name) == before.states()[before.names()[name] as int].0,
{
}

} // verus!
