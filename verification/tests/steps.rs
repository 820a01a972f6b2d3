use dotman::steps::{
    add_next, remove_next, AddFailure, AddNext, AddStep, RemoveFailure, RemoveNext, RemoveStep,
};

#[test]
fn add_runs_its_steps_in_order() {
    let mut last = None;
    let mut seen = Vec::new();
    while let AddNext::Do(step) = add_next(last, true) {
        seen.push(step);
        last = Some(step);
    }
    assert_eq!(
        seen,
        vec![AddStep::CopyIn, AddStep::RemoveOriginal, AddStep::Link, AddStep::Record, AddStep::Commit]
    );
    assert_eq!(add_next(Some(AddStep::Commit), true), AddNext::Done);
}

#[test]
fn add_failures() {
    assert_eq!(add_next(Some(AddStep::CopyIn), false), AddNext::Failed(AddFailure::Plain));
    assert_eq!(add_next(Some(AddStep::RemoveOriginal), false), AddNext::Failed(AddFailure::RolledBack));
    assert_eq!(add_next(Some(AddStep::Link), false), AddNext::Failed(AddFailure::RolledBack));
    assert_eq!(add_next(Some(AddStep::Record), false), AddNext::Failed(AddFailure::NotRecorded));
    assert_eq!(add_next(Some(AddStep::Commit), false), AddNext::Failed(AddFailure::NotCommitted));
}

#[test]
fn remove_puts_the_copy_back_before_deleting_the_managed_copy() {
    let mut last = None;
    let mut seen = Vec::new();
    while let RemoveNext::Do(step) = remove_next(last, true) {
        seen.push(step);
        last = Some(step);
    }
    assert_eq!(
        seen,
        vec![
            RemoveStep::CopyBack,
            RemoveStep::Unlink,
            RemoveStep::PutBack,
            RemoveStep::DeleteManaged,
            RemoveStep::Record,
            RemoveStep::Commit
        ]
    );
    assert_eq!(remove_next(Some(RemoveStep::PutBack), false), RemoveNext::Failed(RemoveFailure::NotPutBack));
    assert_eq!(remove_next(Some(RemoveStep::Unlink), false), RemoveNext::Failed(RemoveFailure::LinkKept));
    assert_eq!(remove_next(Some(RemoveStep::Commit), false), RemoveNext::Failed(RemoveFailure::NotCommitted));
    assert_eq!(remove_next(Some(RemoveStep::CopyBack), false), RemoveNext::Failed(RemoveFailure::Plain));
}
