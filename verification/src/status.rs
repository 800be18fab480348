//! The lifecycle stages of a project phase, in their order.

use vstd::prelude::*;
use crate::text::chars_of;

verus! {

/// A lifecycle stage of a project phase. The stages are ordered as they are listed.
#[derive(Clone, Copy, Debug, PartialEq, Eq, Structural)]
pub enum Status {
    Proposed,
    WorkOrderDone,
    Approved,
    FlightPlanDone,
    Flown,
    DataChecked,
    Processed,
    DeliveredComplete,
}

/// The names of the stages, in the order of the stages.
pub const PHASE_STATUS: [&'static str; 8] = [
    "proposed",
    "work order done",
    "approved",
    "flight plan done",
    "flown",
    "data checked",
    "processed",
    "delivered & complete",
];

/// The lower-case form of an ASCII upper-case letter; any other character itself.
pub open spec fn ascii_lower(c: char) -> char {
    if 'A' <= c <= 'Z' {
        ((c as u8 + 32) as u8) as char
    } else {
        c
    }
}

/// `s` with its ASCII upper-case letters in lower case.
pub open spec fn lowered(s: Seq<char>) -> Seq<char> {
    Seq::new(s.len(), |i: int| ascii_lower(s[i]))
}

/// Whether `a` and `b` are the same text but for the case of their ASCII letters.
pub open spec fn same_ignoring_case(a: Seq<char>, b: Seq<char>) -> bool {
    lowered(a) == lowered(b)
}

/// The lower-case form of an ASCII upper-case letter; any other character itself.
pub fn to_ascii_lower(c: char) -> (l: char)
    ensures
        l == ascii_lower(c),
{
    if 'A' <= c && c <= 'Z' {
        ((c as u8) + 32) as char
    } else {
        c
    }
}

/// Whether `a` and `b` are the same text but for the case of their ASCII letters.
pub fn eq_ignoring_case(a: &str, b: &str) -> (same: bool)
    ensures
        same == same_ignoring_case(a@, b@),
{
    let left = chars_of(a);
    let right = chars_of(b);
    if left.len() != right.len() {
        assert(lowered(a@).len() != lowered(b@).len());
        return false;
    }
    let mut i: usize = 0;
    while i < left.len()
        invariant
            left@ == a@,
            right@ == b@,
            left.len() == right.len(),
            i <= left.len(),
            forall|j: int| 0 <= j < i ==> ascii_lower(a@[j]) == ascii_lower(b@[j]),
        decreases left.len() - i,
    {
        if to_ascii_lower(left[i]) != to_ascii_lower(right[i]) {
            assert(lowered(a@)[i as int] != lowered(b@)[i as int]);
            return false;
        }
        i = i + 1;
    }
    assert(lowered(a@) =~= lowered(b@));
    true
}

impl Status {
    /// The position of the stage in the lifecycle, from 0 for `Proposed` to 7 for
    /// `DeliveredComplete`.
    pub open spec fn rank_of(self) -> int {
        match self {
            Status::Proposed => 0,
            Status::WorkOrderDone => 1,
            Status::Approved => 2,
            Status::FlightPlanDone => 3,
            Status::Flown => 4,
            Status::DataChecked => 5,
            Status::Processed => 6,
            Status::DeliveredComplete => 7,
        }
    }

    /// The name under which the database knows the stage.
    pub open spec fn label(self) -> Seq<char> {
        match self {
            Status::Proposed => "proposed"@,
            Status::WorkOrderDone => "work order done"@,
            Status::Approved => "approved"@,
            Status::FlightPlanDone => "flight plan done"@,
            Status::Flown => "flown"@,
            Status::DataChecked => "data checked"@,
            Status::Processed => "processed"@,
            Status::DeliveredComplete => "delivered & complete"@,
        }
    }

    /// Whether a project at this stage has reached the stage `min`.
    pub open spec fn reaches(self, min: Status) -> bool {
        self.rank_of() >= min.rank_of()
    }

    /// The position of the stage in the lifecycle.
    pub fn rank(self) -> (r: u8)
        ensures
            r == self.rank_of(),
    {
        match self {
            Status::Proposed => 0,
            Status::WorkOrderDone => 1,
            Status::Approved => 2,
            Status::FlightPlanDone => 3,
            Status::Flown => 4,
            Status::DataChecked => 5,
            Status::Processed => 6,
            Status::DeliveredComplete => 7,
        }
    }

    /// The name under which the database knows the stage.
    pub fn name(self) -> (s: &'static str)
        ensures
            s@ == self.label(),
    {
        PHASE_STATUS[self.rank() as usize]
    }

    /// Whether a project at this stage has reached the stage `min`: the comparison
    /// is by position and includes `min` itself.
    pub fn at_least(self, min: Status) -> (b: bool)
        ensures
            b == self.reaches(min),
    {
        self.rank() >= min.rank()
    }

    /// The stage whose name is `s` but for the case of ASCII letters, where there
    /// is one.
    pub open spec fn named(s: Seq<char>) -> Option<Status> {
        if exists|status: Status| same_ignoring_case(s, status.label()) {
            Some(choose|status: Status| same_ignoring_case(s, status.label()))
        } else {
            None
        }
    }

    /// Reads a stage from its name, whatever the case of the ASCII letters in it.
    /// The result is the one stage whose name is `s` but for case, and `None` where
    /// there is no such stage.
    pub fn parse(s: &str) -> (r: Option<Status>)
        ensures
            r == Status::named(s@),
    {
        proof {
            lemma_named_is_unique(s@);
        }
        if eq_ignoring_case(s, Status::Proposed.name()) {
            Some(Status::Proposed)
        } else if eq_ignoring_case(s, Status::WorkOrderDone.name()) {
            Some(Status::WorkOrderDone)
        } else if eq_ignoring_case(s, Status::Approved.name()) {
            Some(Status::Approved)
        } else if eq_ignoring_case(s, Status::FlightPlanDone.name()) {
            Some(Status::FlightPlanDone)
        } else if eq_ignoring_case(s, Status::Flown.name()) {
            Some(Status::Flown)
        } else if eq_ignoring_case(s, Status::DataChecked.name()) {
            Some(Status::DataChecked)
        } else if eq_ignoring_case(s, Status::Processed.name()) {
            Some(Status::Processed)
        } else if eq_ignoring_case(s, Status::DeliveredComplete.name()) {
            Some(Status::DeliveredComplete)
        } else {
            None
        }
    }
}

/// No two stages have the same name, even when the case of letters is ignored.
pub proof fn lemma_labels_differ()
    ensures
        forall|a: Status, b: Status|
            same_ignoring_case(#[trigger] a.label(), #[trigger] b.label()) ==> a == b,
{
    reveal_strlit("proposed");
    reveal_strlit("work order done");
    reveal_strlit("approved");
    reveal_strlit("flight plan done");
    reveal_strlit("flown");
    reveal_strlit("data checked");
    reveal_strlit("processed");
    reveal_strlit("delivered & complete");
    assert forall|a: Status, b: Status|
        same_ignoring_case(#[trigger] a.label(), #[trigger] b.label()) implies a == b by {
        assert(lowered(a.label()).len() == lowered(b.label()).len());
        if a.label().len() == 8 && a != b {
            assert(lowered(a.label())[0] == lowered(b.label())[0]);
        }
    }
}

/// A text names at most one stage: where `s` is the name of `status` but for case,
/// `status` is the stage that `s` names.
pub proof fn lemma_named_is_unique(s: Seq<char>)
    ensures
        forall|status: Status| #[trigger]
            same_ignoring_case(s, status.label()) ==> Status::named(s) == Some(status),
{
    lemma_labels_differ();
    assert forall|status: Status| #[trigger]
        same_ignoring_case(s, status.label()) implies Status::named(s) == Some(status) by {
        let chosen = choose|other: Status| same_ignoring_case(s, other.label());
        assert(same_ignoring_case(chosen.label(), status.label()));
    }
}

/// Every stage is read back from its own name.
pub proof fn lemma_label_names_its_stage(status: Status)
    ensures
        Status::named(status.label()) == Some(status),
{
    lemma_named_is_unique(status.label());
    assert(same_ignoring_case(status.label(), status.label()));
}

/// The order of the stages is total: of two stages, one reaches the other, and two
/// stages that reach each other are the same stage.
pub proof fn lemma_stages_are_totally_ordered(a: Status, b: Status)
    ensures
        a.reaches(b) || b.reaches(a),
        a.reaches(b) && b.reaches(a) ==> a == b,
{
}

/// A stage that reaches a second stage reaches every stage that the second
/// reaches, and every stage reaches itself.
pub proof fn lemma_reaches_is_transitive(a: Status, b: Status, c: Status)
    ensures
        a.reaches(a),
        a.reaches(b) && b.reaches(c) ==> a.reaches(c),
{
}

} // verus!
