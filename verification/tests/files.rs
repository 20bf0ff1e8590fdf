//! Replacing a file.
use ratwarren::files::{blamed, next_step, Stage, Step, TEMPORARY_SUFFIX};

fn replace(failing: Option<Stage>) -> (Vec<Stage>, Step) {
    let mut done = vec![];
    let mut step = Step::Do(Stage::MakeDirectory);
    while let Step::Do(stage) = step {
        done.push(stage);
        step = next_step(stage, Some(stage) != failing);
    }
    (done, step)
}

#[test]
fn a_file_is_replaced_only_after_the_new_contents_were_written() {
    let all =
        vec![Stage::MakeDirectory, Stage::OpenTemporary, Stage::WriteTemporary, Stage::Rename];
    assert_eq!(replace(None), (all.clone(), Step::Done));
    for (i, stage) in all.iter().enumerate() {
        assert_eq!(replace(Some(*stage)), (all[..=i].to_vec(), Step::Failed(*stage)));
    }
}

#[test]
fn the_temporary_file_is_blamed_while_it_is_written() {
    assert_eq!(TEMPORARY_SUFFIX, ".tmp");
    assert_eq!(blamed(Stage::MakeDirectory, 'd', 't', 'p'), 'd');
    assert_eq!(blamed(Stage::OpenTemporary, 'd', 't', 'p'), 't');
    assert_eq!(blamed(Stage::WriteTemporary, 'd', 't', 'p'), 't');
    assert_eq!(blamed(Stage::Rename, 'd', 't', 'p'), 'p');
}
