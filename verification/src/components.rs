//! Component records. They are leaf data without behavior; every scalar in
//! them is a fixed-point number as described in [`crate::fixed`].

use vstd::prelude::*;

verus! {

/// An abstract key of the keyboard, as the platform numbers it.
pub type Key = u32;

/// What the move system does when an entity reaches an edge of the playfield.
#[derive(Clone, Copy, PartialEq, Eq, Structural, Debug)]
pub enum ClampVariant {
    /// Put the entity back inside and reverse its speed on that axis.
    Bounce,
    /// Put the entity back inside and stop it on that axis.
    Stop,
    /// Leave the entity alone and report that it left the playfield.
    Remove,
}

/// The edge policy of an entity.
#[derive(Clone, Copy, PartialEq, Eq, Structural, Debug)]
pub struct WindowClamp {
    pub variant: ClampVariant,
}

/// The two keys that steer a paddle.
#[derive(Clone, Copy, PartialEq, Eq, Structural, Debug)]
pub struct PlayerController {
    pub up: Key,
    pub down: Key,
}

/// Where an entity is.
#[derive(Clone, Copy, PartialEq, Eq, Structural, Debug)]
pub struct Position {
    pub x: i64,
    pub y: i64,
}

/// Marks an entity whose color is drawn anew on every render tick.
#[derive(Clone, Copy, PartialEq, Eq, Structural, Debug)]
pub struct Shimmer;

/// How much opacity an entity loses on every update tick.
#[derive(Clone, Copy, PartialEq, Eq, Structural, Debug)]
pub struct Fade(pub i64);

/// The outline of an entity.
#[derive(Clone, Copy, PartialEq, Eq, Structural, Debug)]
pub enum ShapeVariant {
    /// A single point.
    Point,
    /// A circle, given by its radius.
    Circle(i64),
    /// An axis-aligned rectangle, given by half its width and half its height.
    Square(i64, i64),
    /// A segment, given by its end points in the order x1, y1, x2, y2.
    Line(i64, i64, i64, i64),
}

impl Default for ShapeVariant {
    /// A shape is a point unless something else is said.
    fn default() -> (v: ShapeVariant)
        ensures
            v == ShapeVariant::Point,
    {
        ShapeVariant::Point
    }
}

/// A shape and the width of its border, which only drawing looks at.
#[derive(Clone, Copy, PartialEq, Eq, Structural, Debug)]
pub struct Shape {
    pub variant: ShapeVariant,
    pub border: Option<i64>,
}

/// How fast an entity moves, in units per second.
#[derive(Clone, Copy, PartialEq, Eq, Structural, Debug)]
pub struct Velocity {
    pub x: i64,
    pub y: i64,
}

/// Red, green, blue and opacity. The channels are nominally between zero and
/// `ONE`, but nothing clamps them.
#[derive(Clone, Copy, PartialEq, Eq, Structural, Debug)]
pub struct Color {
    pub red: i64,
    pub green: i64,
    pub blue: i64,
    pub alpha: i64,
}

/// A debounced counter of hits.
#[derive(Clone, Copy, PartialEq, Eq, Structural, Debug)]
pub struct HitCount {
    /// Whether the entity was in contact when it was last looked at.
    pub recent: bool,
    /// How many contacts have started.
    pub count: u32,
}

impl HitCount {
    /// The counter after a tick in contact: a contact that starts is counted,
    /// one that goes on is not. The count stops at the largest number.
    pub open spec fn spec_struck(self) -> HitCount {
        if self.recent {
            self
        } else if self.count < u32::MAX {
            HitCount { recent: true, count: (self.count + 1) as u32 }
        } else {
            HitCount { recent: true, count: self.count }
        }
    }

    /// The counter after a tick in contact, see [`HitCount::spec_struck`].
    #[verifier::when_used_as_spec(spec_struck)]
    pub fn struck(self) -> (after: HitCount)
        ensures
            after == self.spec_struck(),
    {
        if self.recent {
            self
        } else if self.count < u32::MAX {
            HitCount { recent: true, count: self.count + 1 }
        } else {
            HitCount { recent: true, count: self.count }
        }
    }

    /// The counter after a tick out of contact: the next contact counts anew.
    pub open spec fn spec_parted(self) -> HitCount {
        HitCount { recent: false, count: self.count }
    }

    /// The counter after a tick out of contact, see [`HitCount::spec_parted`].
    #[verifier::when_used_as_spec(spec_parted)]
    pub fn parted(self) -> (after: HitCount)
        ensures
            after == self.spec_parted(),
    {
        HitCount { recent: false, count: self.count }
    }
}

impl HitCount {
    /// The counter after a tick of which it is told what the entity met: in
    /// contact with something it is struck, apart from all that it could have
    /// touched it is parted, and where there was nothing to touch it stays as
    /// it is.
    pub open spec fn spec_told(self, contact: Option<bool>) -> HitCount {
        match contact {
            Some(true) => self.spec_struck(),
            Some(false) => self.spec_parted(),
            None => self,
        }
    }

    /// The counter after a tick, see [`HitCount::spec_told`].
    #[verifier::when_used_as_spec(spec_told)]
    pub fn told(self, contact: Option<bool>) -> (after: HitCount)
        ensures
            after == self.spec_told(contact),
    {
        match contact {
            Some(true) => self.struck(),
            Some(false) => self.parted(),
            None => self,
        }
    }
}

/// The counter after `ticks` ticks in contact without a break.
pub open spec fn struck_times(hits: HitCount, ticks: nat) -> HitCount
    decreases ticks,
{
    if ticks == 0 {
        hits
    } else {
        struck_times(hits, (ticks - 1) as nat).struck()
    }
}

/// A contact counts once, however many ticks it lasts.
pub proof fn lemma_contact_counts_once(hits: HitCount, ticks: nat)
    requires
        ticks >= 1,
        !hits.recent,
        hits.count < u32::MAX,
    ensures
        struck_times(hits, ticks) == (HitCount { recent: true, count: (hits.count + 1) as u32 }),
    decreases ticks,
{
    if ticks > 1 {
        lemma_contact_counts_once(hits, (ticks - 1) as nat);
    } else {
        assert(struck_times(hits, 0) == hits);
    }
}

/// The counter after one tick for each member of `contacts`, told of each
/// what the entity met in that tick.
pub open spec fn counted(hits: HitCount, contacts: Seq<Option<bool>>) -> HitCount
    decreases contacts.len(),
{
    if contacts.len() == 0 {
        hits
    } else {
        counted(hits, contacts.drop_last()).told(contacts.last())
    }
}

/// Counting through two runs of ticks is counting through the first and
/// then, from there, through the second.
pub proof fn lemma_counted_in_turn(
    hits: HitCount,
    first: Seq<Option<bool>>,
    second: Seq<Option<bool>>,
)
    ensures
        counted(hits, first + second) == counted(counted(hits, first), second),
    decreases second.len(),
{
    if second.len() == 0 {
        assert(first + second == first);
    } else {
        lemma_counted_in_turn(hits, first, second.drop_last());
        assert((first + second).drop_last() == first + second.drop_last());
        assert((first + second).last() == second.last());
    }
}

/// Through ticks that are all in contact the counter is struck each time.
pub proof fn lemma_counted_in_contact(hits: HitCount, contacts: Seq<Option<bool>>)
    requires
        forall|k: int| 0 <= k < contacts.len() ==> contacts[k] == Some(true),
    ensures
        counted(hits, contacts) == struck_times(hits, contacts.len()),
    decreases contacts.len(),
{
    if contacts.len() > 0 {
        let front = contacts.drop_last();
        assert forall|k: int| 0 <= k < front.len() implies front[k] == Some(true) by {
            assert(contacts[k] == Some(true));
        }
        lemma_counted_in_contact(hits, front);
        assert(contacts[contacts.len() - 1] == Some(true));
    }
}

/// Ticks out of contact, if there is one, leave the count as it is and the
/// counter ready to count the next contact.
pub proof fn lemma_counted_out_of_contact(hits: HitCount, contacts: Seq<Option<bool>>)
    requires
        contacts.len() >= 1,
        forall|k: int| 0 <= k < contacts.len() ==> contacts[k] == Some(false),
    ensures
        counted(hits, contacts) == (HitCount { recent: false, count: hits.count }),
    decreases contacts.len(),
{
    let front = contacts.drop_last();
    assert(contacts[contacts.len() - 1] == Some(false));
    if contacts.len() > 1 {
        assert forall|k: int| 0 <= k < front.len() implies front[k] == Some(false) by {
            assert(contacts[k] == Some(false));
        }
        lemma_counted_out_of_contact(hits, front);
    } else {
        assert(counted(hits, front) == hits);
    }
}

/// A contact that starts after the last one has ended counts again: two
/// contacts with a time out of contact between them add two to the count,
/// however many ticks each of the three lasts.
pub proof fn lemma_contact_counts_again(
    hits: HitCount,
    first: Seq<Option<bool>>,
    between: Seq<Option<bool>>,
    second: Seq<Option<bool>>,
)
    requires
        first.len() >= 1,
        between.len() >= 1,
        second.len() >= 1,
        forall|k: int| 0 <= k < first.len() ==> first[k] == Some(true),
        forall|k: int| 0 <= k < between.len() ==> between[k] == Some(false),
        forall|k: int| 0 <= k < second.len() ==> second[k] == Some(true),
        !hits.recent,
        hits.count + 1 < u32::MAX,
    ensures
        counted(hits, first + between + second) == (HitCount {
            recent: true,
            count: (hits.count + 2) as u32,
        }),
{
    let once = counted(hits, first);
    let apart = counted(once, between);
    lemma_counted_in_turn(hits, first + between, second);
    lemma_counted_in_turn(hits, first, between);
    lemma_counted_in_contact(hits, first);
    lemma_contact_counts_once(hits, first.len());
    lemma_counted_out_of_contact(once, between);
    lemma_counted_in_contact(apart, second);
    lemma_contact_counts_once(apart, second.len());
}

/// The count never goes down.
pub proof fn lemma_count_never_falls(hits: HitCount, contact: Option<bool>)
    ensures
        hits.struck().count >= hits.count,
        hits.parted().count == hits.count,
        hits.told(contact).count >= hits.count,
{
}

/// Ticks in which the entity meets nothing leave its counter as it is: a
/// contact is not ended by what happens to others.
pub proof fn lemma_counted_unmet(hits: HitCount, contacts: Seq<Option<bool>>)
    requires
        forall|k: int| 0 <= k < contacts.len() ==> contacts[k] is None,
    ensures
        counted(hits, contacts) == hits,
    decreases contacts.len(),
{
    if contacts.len() > 0 {
        let front = contacts.drop_last();
        assert forall|k: int| 0 <= k < front.len() implies front[k] is None by {
            assert(contacts[k] is None);
        }
        lemma_counted_unmet(hits, front);
        assert(contacts[contacts.len() - 1] is None);
    }
}

} // verus!
