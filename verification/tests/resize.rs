use kova::resize::{arm_timer, step_resize_settle, step_timers};
use kova::view::PaneTimer;
use std::collections::HashMap;

#[test]
fn resize_settle_fires_once_when_burst_ends() {
    let mut m: HashMap<u32, u32> = HashMap::new();
    m.insert(7, 3);
    assert!(step_resize_settle(&mut m).is_empty()); // 3 -> 2
    assert!(step_resize_settle(&mut m).is_empty()); // 2 -> 1
    assert_eq!(step_resize_settle(&mut m), vec![7]); // 1 -> 0, fires
    assert!(m.is_empty(), "fired pane is removed");
    assert!(step_resize_settle(&mut m).is_empty(), "no re-fire");
}

#[test]
fn resize_settle_rearms_and_defers_fire() {
    let mut m: HashMap<u32, u32> = HashMap::new();
    m.insert(1, 2);
    assert!(step_resize_settle(&mut m).is_empty()); // 2 -> 1
    // A new resize re-arms the same pane before it could fire.
    m.insert(1, 2);
    assert!(step_resize_settle(&mut m).is_empty()); // 2 -> 1 (not 0)
    assert_eq!(step_resize_settle(&mut m), vec![1]); // 1 -> 0, fires now
}

#[test]
fn resize_settle_handles_multiple_panes_independently() {
    let mut m: HashMap<u32, u32> = HashMap::new();
    m.insert(1, 1);
    m.insert(2, 3);
    assert_eq!(step_resize_settle(&mut m), vec![1]); // pane 1 fires; pane 2: 3 -> 2
    assert!(m.contains_key(&2) && !m.contains_key(&1));
    assert!(step_resize_settle(&mut m).is_empty()); // pane 2: 2 -> 1
    assert_eq!(step_resize_settle(&mut m), vec![2]); // pane 2: 1 -> 0, fires
}

#[test]
fn arming_a_timer_again_restarts_it_and_leaves_the_others() {
    let mut timers: Vec<PaneTimer> = Vec::new();
    arm_timer(&mut timers, 1, 2);
    arm_timer(&mut timers, 2, 3);
    assert!(step_timers(&mut timers).is_empty());
    arm_timer(&mut timers, 1, 2);
    assert!(step_timers(&mut timers).is_empty());
    let mut ended = step_timers(&mut timers);
    ended.sort();
    assert_eq!(ended, vec![1, 2]);
    assert!(timers.is_empty());
}
