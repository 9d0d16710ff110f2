//! A stack-shaped list of armor records, and a suit that wraps one list with a
//! required version, a compatibility check and an in-place repair pass.
//!
//! The list keeps its records most-recently-pushed first: index 0 of the view
//! is the head. Only head access is offered (push, pop, peek), so the list is
//! a stack; `size` always equals the number of records reachable from the
//! head.
//!
//! The records are held by value rather than in shared, individually locked
//! nodes: every mutation goes through `&mut`, so the repair pass edits the
//! suit's own list in place instead of writing through a shared cursor, and a
//! clone is an independent copy with equal contents.

use vstd::prelude::*;

verus! {

/// One part of a suit, together with its condition: a damage flag, a power
/// reserve, a missile count or a connection flag, depending on the part.
#[derive(Debug, Clone, Copy, PartialEq, Eq, Structural)]
pub enum Component {
    /// Is it damaged?
    Helmet(bool),
    /// Is it damaged? How much power is left?
    LeftThrusters(bool, i32),
    /// Is it damaged? How much power is left?
    RightThrusters(bool, i32),
    /// Is it damaged? How much power is left?
    LeftRepulsor(bool, i32),
    /// Is it damaged? How much power is left?
    RightRepulsor(bool, i32),
    /// Is it damaged? How much power is left?
    ChestPiece(bool, i32),
    /// How many missiles are left?
    Missiles(i32),
    /// How much power is left?
    ArcReactor(i32),
    /// Connected to wifi?
    Wifi(bool),
}

/// One armor record: a component paired with the version it was built for.
/// A plain value type; equality is by value.
#[derive(Debug, Clone, Copy, PartialEq, Eq, Structural)]
pub struct Armor {
    pub component: Component,
    pub version: i32,
}

/// An ordered sequence of armor records, most-recently-pushed first.
///
/// The records are held in a plain vector whose front is the head, so the
/// view of a list is exactly the sequence of records from head to tail.
pub struct List {
    items: Vec<Armor>,
}

impl Clone for List {
    /// A clone holds exactly the records of the original, in order.
    fn clone(&self) -> (r: Self)
        ensures
            r@ == self@,
    {
        let mut items: Vec<Armor> = Vec::new();
        let mut i: usize = 0;
        while i < self.items.len()
            invariant
                i <= self.items@.len(),
                items@ =~= self.items@.subrange(0, i as int),
            decreases self.items@.len() - i,
        {
            items.push(self.items[i]);
            proof {
                assert(items@ =~= self.items@.subrange(0, i as int + 1));
            }
            i = i + 1;
        }
        proof {
            assert(items@ =~= self.items@);
        }
        List { items }
    }
}

impl View for List {
    type V = Seq<Armor>;

    closed spec fn view(&self) -> Seq<Armor> {
        self.items@
    }
}

/// The sequence after a push: the new record stands at the head.
pub open spec fn spec_push(s: Seq<Armor>, armor: Armor) -> Seq<Armor> {
    s.insert(0, armor)
}

/// What `peek` and `pop` return: the head record, or nothing when empty.
pub open spec fn spec_peek(s: Seq<Armor>) -> Option<Armor> {
    if s.len() == 0 {
        None
    } else {
        Some(s[0])
    }
}

/// The sequence after a pop: the head is gone; an empty list is unchanged.
pub open spec fn spec_tail(s: Seq<Armor>) -> Seq<Armor> {
    if s.len() == 0 {
        s
    } else {
        s.drop_first()
    }
}

impl List {
    /// An empty list: size 0, no head.
    pub fn new() -> (r: Self)
        ensures
            r@ == Seq::<Armor>::empty(),
    {
        List { items: Vec::new() }
    }

    /// The current element count, always the length of the record sequence.
    pub fn size(&self) -> (n: usize)
        ensures
            n == self@.len(),
    {
        self.items.len()
    }

    /// A copy of the head record, or nothing when the list is empty.
    pub fn peek(&self) -> (r: Option<Armor>)
        ensures
            r == spec_peek(self@),
    {
        if self.items.len() == 0 {
            None
        } else {
            Some(self.items[0])
        }
    }

    /// Installs a new head holding `armor`; every earlier record moves one
    /// place toward the tail and the size grows by one.
    pub fn push(&mut self, armor: Armor)
        ensures
            final(self)@ == spec_push(old(self)@, armor),
    {
        self.items.insert(0, armor);
    }

    /// Removes and returns the head record; on an empty list it returns
    /// nothing and leaves the list as it was.
    pub fn pop(&mut self) -> (r: Option<Armor>)
        ensures
            r == spec_peek(old(self)@),
            final(self)@ == spec_tail(old(self)@),
    {
        if self.items.len() == 0 {
            None
        } else {
            let head = self.items.remove(0);
            assert(self@ =~= spec_tail(old(self)@));
            Some(head)
        }
    }
}

/// The component after one repair pass: a damaged thruster, repulsor or chest
/// piece comes back undamaged at full power; every other component, and every
/// undamaged part, is left as it was.
pub open spec fn spec_repaired_component(c: Component) -> Component {
    match c {
        Component::LeftThrusters(true, _) => Component::LeftThrusters(false, 100),
        Component::RightThrusters(true, _) => Component::RightThrusters(false, 100),
        Component::LeftRepulsor(true, _) => Component::LeftRepulsor(false, 100),
        Component::RightRepulsor(true, _) => Component::RightRepulsor(false, 100),
        Component::ChestPiece(true, _) => Component::ChestPiece(false, 100),
        _ => c,
    }
}

/// The armor record after a repair pass: the component is repaired, the
/// record's version is preserved.
pub open spec fn spec_repaired_armor(a: Armor) -> Armor {
    Armor { component: spec_repaired_component(a.component), version: a.version }
}

/// When a suit counts as compatible. Deliberately, only the head record is
/// inspected, never the rest of the chain: an empty list is compatible, and a
/// non-empty one is compatible exactly when its head's version matches.
pub open spec fn spec_compatible(s: Seq<Armor>, version: i32) -> bool {
    s.len() == 0 || s[0].version == version
}

/// A suit: one list of armor records plus the version the suit requires.
pub struct Suit {
    pub armor: List,
    pub version: i32,
}

impl Clone for Suit {
    /// A clone holds the same records and requires the same version.
    fn clone(&self) -> (r: Self)
        ensures
            r.armor@ == self.armor@,
            r.version == self.version,
    {
        Suit { armor: self.armor.clone(), version: self.version }
    }
}

impl Suit {
    /// True exactly when every inspected record's version equals the suit's.
    /// Only the head is inspected (see `spec_compatible`); an empty suit is
    /// vacuously compatible.
    pub fn is_compatible(&self) -> (r: bool)
        ensures
            r == spec_compatible(self.armor@, self.version),
    {
        match self.armor.peek() {
            None => true,
            Some(head) => head.version == self.version,
        }
    }

    /// Repairs every record in the list, head to tail, in place: each damaged
    /// thruster, repulsor or chest piece becomes undamaged at power 100, and
    /// everything else is untouched. The list's size, order and versions are
    /// unchanged.
    pub fn repair(&mut self)
        ensures
            final(self).version == old(self).version,
            final(self).armor@.len() == old(self).armor@.len(),
            forall|i: int|
                0 <= i < old(self).armor@.len() ==> final(self).armor@[i] == spec_repaired_armor(
                    old(self).armor@[i],
                ),
    {
        let len = self.armor.items.len();
        let mut i: usize = 0;
        while i < len
            invariant
                len == old(self).armor@.len(),
                i <= len,
                self.version == old(self).version,
                self.armor@.len() == len,
                forall|j: int|
                    0 <= j < i ==> self.armor@[j] == spec_repaired_armor(old(self).armor@[j]),
                forall|j: int| i <= j < len ==> self.armor@[j] == old(self).armor@[j],
            decreases len - i,
        {
            let a = self.armor.items[i];
            let fixed = Armor { component: repair_component(a.component), version: a.version };
            self.armor.items[i] = fixed;
            i = i + 1;
        }
    }
}

/// The executable counterpart of `spec_repaired_component`.
fn repair_component(c: Component) -> (r: Component)
    ensures
        r == spec_repaired_component(c),
{
    match c {
        Component::LeftThrusters(true, _) => Component::LeftThrusters(false, 100),
        Component::RightThrusters(true, _) => Component::RightThrusters(false, 100),
        Component::LeftRepulsor(true, _) => Component::LeftRepulsor(false, 100),
        Component::RightRepulsor(true, _) => Component::RightRepulsor(false, 100),
        Component::ChestPiece(true, _) => Component::ChestPiece(false, 100),
        _ => c,
    }
}

/// Law: the list is a stack. Pushing `a` and then `b` leaves `b` at the head;
/// popping then yields `b`, then `a`, and restores the original sequence.
pub proof fn lemma_stack_discipline(s: Seq<Armor>, a: Armor, b: Armor)
    ensures
        spec_peek(spec_push(spec_push(s, a), b)) == Some(b),
        spec_tail(spec_push(spec_push(s, a), b)) == spec_push(s, a),
        spec_peek(spec_push(s, a)) == Some(a),
        spec_tail(spec_push(s, a)) == s,
{
    assert(spec_tail(spec_push(spec_push(s, a), b)) =~= spec_push(s, a));
    assert(spec_tail(spec_push(s, a)) =~= s);
}

/// Law: a peek followed immediately by a pop returns the same record. On a
/// non-empty sequence both return the head, and pushing that head back onto
/// what pop leaves restores the sequence; on an empty sequence both return
/// nothing.
pub proof fn lemma_peek_pop_agree(s: Seq<Armor>)
    ensures
        s.len() > 0 ==> spec_peek(s) == Some(s[0]) && spec_push(spec_tail(s), s[0]) == s,
        s.len() == 0 ==> spec_peek(s) == None::<Armor>,
{
    if s.len() > 0 {
        assert(spec_push(spec_tail(s), s[0]) =~= s);
    }
}

/// Law: how the size moves. A push grows the sequence by exactly one; a pop
/// on a non-empty sequence shrinks it by exactly one; a pop on an empty
/// sequence returns nothing and leaves the size at zero. So after any run of
/// pushes and pops the size is the number of pushes minus the number of
/// successful pops, and never negative.
pub proof fn lemma_size_discipline(s: Seq<Armor>, a: Armor)
    ensures
        spec_push(s, a).len() == s.len() + 1,
        s.len() > 0 ==> spec_tail(s).len() == s.len() - 1,
        s.len() == 0 ==> spec_tail(s) == s && spec_peek(s) == None::<Armor>,
{
}

/// Law: what compatibility means. A suit whose records all carry the suit's
/// own version is compatible, and a suit whose head record carries another
/// version is not.
pub proof fn lemma_compatibility(s: Seq<Armor>, version: i32)
    ensures
        (forall|i: int| 0 <= i < s.len() ==> s[i].version == version) ==> spec_compatible(
            s,
            version,
        ),
        s.len() > 0 && s[0].version != version ==> !spec_compatible(s, version),
{
}

} // verus!
