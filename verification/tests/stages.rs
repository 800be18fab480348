use aco_sync_nas_dirs::status::{eq_ignoring_case, to_ascii_lower, Status, PHASE_STATUS};

fn all_stages() -> [Status; 8] {
    [
        Status::Proposed,
        Status::WorkOrderDone,
        Status::Approved,
        Status::FlightPlanDone,
        Status::Flown,
        Status::DataChecked,
        Status::Processed,
        Status::DeliveredComplete,
    ]
}

#[test]
fn stages_are_ranked_in_order() {
    let stages = all_stages();
    for (i, stage) in stages.iter().enumerate() {
        assert_eq!(stage.rank() as usize, i);
    }
}

#[test]
fn stage_names() {
    assert_eq!(Status::Proposed.name(), "proposed");
    assert_eq!(Status::WorkOrderDone.name(), "work order done");
    assert_eq!(Status::Approved.name(), "approved");
    assert_eq!(Status::FlightPlanDone.name(), "flight plan done");
    assert_eq!(Status::Flown.name(), "flown");
    assert_eq!(Status::DataChecked.name(), "data checked");
    assert_eq!(Status::Processed.name(), "processed");
    assert_eq!(Status::DeliveredComplete.name(), "delivered & complete");
}

#[test]
fn stage_names_are_listed_in_order() {
    let stages = all_stages();
    assert_eq!(PHASE_STATUS.len(), 8);
    for i in 0..8 {
        assert_eq!(PHASE_STATUS[i], stages[i].name());
    }
}

#[test]
fn every_stage_is_read_back_from_its_name() {
    for stage in all_stages() {
        assert_eq!(Status::parse(stage.name()), Some(stage));
    }
}

#[test]
fn parse_ignores_case() {
    assert_eq!(Status::parse("APPROVED"), Some(Status::Approved));
    assert_eq!(Status::parse("Approved"), Some(Status::Approved));
    assert_eq!(Status::parse("Work Order Done"), Some(Status::WorkOrderDone));
    assert_eq!(Status::parse("DELIVERED & COMPLETE"), Some(Status::DeliveredComplete));
    assert_eq!(Status::parse("fLoWn"), Some(Status::Flown));
}

#[test]
fn parse_refuses_what_is_no_stage() {
    assert_eq!(Status::parse(""), None);
    assert_eq!(Status::parse("approved "), None);
    assert_eq!(Status::parse(" approved"), None);
    assert_eq!(Status::parse("aproved"), None);
    assert_eq!(Status::parse("delivered and complete"), None);
    assert_eq!(Status::parse("work  order done"), None);
    assert_eq!(Status::parse("flown\u{0}"), None);
}

#[test]
fn parse_folds_ascii_letters_only() {
    // U+212A, the Kelvin sign, is no ASCII letter and stays as it is.
    assert_eq!(Status::parse("wor\u{212a} order done"), None);
}

#[test]
fn threshold_approved_excludes_proposed_and_includes_flown() {
    assert!(!Status::Proposed.at_least(Status::Approved));
    assert!(Status::Flown.at_least(Status::Approved));
}

#[test]
fn threshold_includes_the_stage_itself() {
    for stage in all_stages() {
        assert!(stage.at_least(stage));
    }
}

#[test]
fn at_least_follows_the_ranks() {
    for a in all_stages() {
        for b in all_stages() {
            assert_eq!(a.at_least(b), a.rank() >= b.rank());
        }
    }
}

#[test]
fn lower_case_of_ascii_letters() {
    assert_eq!(to_ascii_lower('A'), 'a');
    assert_eq!(to_ascii_lower('Z'), 'z');
    assert_eq!(to_ascii_lower('q'), 'q');
    assert_eq!(to_ascii_lower('@'), '@');
    assert_eq!(to_ascii_lower('['), '[');
    assert_eq!(to_ascii_lower('\u{c9}'), '\u{c9}');
}

#[test]
fn texts_that_differ_in_case_only() {
    assert!(eq_ignoring_case("Flight Plan Done", "flight plan done"));
    assert!(eq_ignoring_case("", ""));
    assert!(!eq_ignoring_case("flown", "flow"));
    assert!(!eq_ignoring_case("flown", "flowm"));
    assert!(!eq_ignoring_case("\u{c9}", "\u{e9}"));
}
