use forma::scene::{save_slot, SceneChain};

#[test]
fn chain_steps_wrap_and_skip_missing_scenes() {
    let mut c = SceneChain { steps: vec![2, 0, 5], pos: 0 };
    assert_eq!(c.advance(4), Some(0));
    assert_eq!(c.pos, 1);
    assert_eq!(c.advance(4), None);
    assert_eq!(c.pos, 2);
    assert_eq!(c.advance(4), Some(2));
    assert_eq!(c.pos, 0);
}

#[test]
fn deleting_a_scene_reindexes_the_chain() {
    let mut c = SceneChain { steps: vec![3, 1, 2, 1, 0], pos: 2 };
    c.on_scene_deleted(1);
    assert_eq!(c.steps, vec![2, 1, 0]);
    assert_eq!(c.pos, 2);
    c.on_scene_deleted(7);
    assert_eq!(c.steps, vec![2, 1, 0]);
}

#[test]
fn editing_chain_steps() {
    let mut c = SceneChain { steps: vec![4, 5, 6], pos: 2 };
    c.move_step_up(2);
    assert_eq!(c.steps, vec![4, 6, 5]);
    c.remove_step(0);
    assert_eq!(c.steps, vec![6, 5]);
    // The position fell off the end and moves to the last step.
    assert_eq!(c.pos, 1);
    c.remove_step(1);
    c.remove_step(0);
    assert!(c.steps.is_empty());
    assert_eq!(c.pos, 0);
    c.push(9);
    assert_eq!(c.steps, vec![9]);
}

#[test]
fn saving_replaces_a_scene_of_the_same_name() {
    let names = vec!["Intro".to_string(), "Drop".to_string(), "Drop".to_string()];
    assert_eq!(save_slot(&names, &"Drop".to_string()), Some(1));
    assert_eq!(save_slot(&names, &"Intro".to_string()), Some(0));
    assert_eq!(save_slot(&names, &"Outro".to_string()), None);
    assert_eq!(save_slot(&vec![], &"Intro".to_string()), None);
}
