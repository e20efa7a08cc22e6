use sparsey::schedule::label::{FIRST_ID, LAST_ID, POST_UPDATE_ID, PRE_UPDATE_ID, UPDATE_ID};
use sparsey::schedule::{First, Label, Last, PostUpdate, PreUpdate, Schedule, ScheduleLabel, Update};
use sparsey::system::{BoxedCondition, BoxedSystem};

type TestSchedule = Schedule<i64, BoxedSystem<i64>, BoxedCondition<i64>>;

struct Physics;

impl ScheduleLabel for Physics {
    fn label_id(&self) -> u64 {
        100
    }

    fn label_name(&self) -> &'static str {
        "Physics"
    }

    fn id(&self) -> u64 {
        100
    }

    fn name(&self) -> &'static str {
        "Physics"
    }
}

fn ids(schedule: &TestSchedule) -> Vec<u64> {
    schedule.order().iter().map(|label| label.id).collect()
}

#[test]
fn default_order_is_the_five_stages() {
    let schedule = TestSchedule::default();
    assert_eq!(ids(&schedule), vec![FIRST_ID, PRE_UPDATE_ID, UPDATE_ID, POST_UPDATE_ID, LAST_ID]);
    let names: Vec<&str> = schedule.order().iter().map(|label| label.name()).collect();
    assert_eq!(names, vec!["First", "PreUpdate", "Update", "PostUpdate", "Last"]);
    assert_eq!(First.id(), 0);
    assert_eq!(Last.name(), "Last");
}

#[test]
fn add_label_is_idempotent() {
    let mut schedule = TestSchedule::default();
    schedule.add_label(Physics);
    schedule.add_label(Physics);
    schedule.add_label(Update);
    assert_eq!(ids(&schedule), vec![0, 1, 2, 3, 4, 100]);
}

#[test]
fn add_label_before_puts_a_new_label_right_before_the_reference() {
    let mut schedule = TestSchedule::default();
    schedule.add_label_before(Physics, Update);
    assert_eq!(ids(&schedule), vec![0, 1, 100, 2, 3, 4]);
}

#[test]
fn add_label_after_puts_a_new_label_right_after_the_reference() {
    let mut schedule = TestSchedule::default();
    schedule.add_label_after(Physics, Update);
    assert_eq!(ids(&schedule), vec![0, 1, 2, 100, 3, 4]);
}

#[test]
fn existing_label_is_moved() {
    let mut schedule = TestSchedule::default();
    schedule.add_label_before(Last, PreUpdate);
    assert_eq!(ids(&schedule), vec![0, 4, 1, 2, 3]);
    schedule.add_label_after(First, PostUpdate);
    assert_eq!(ids(&schedule), vec![4, 1, 2, 3, 0]);
    schedule.add_label_after(PostUpdate, Last);
    assert_eq!(ids(&schedule), vec![4, 3, 1, 2, 0]);
    schedule.add_label_before(Update, Update);
    assert_eq!(ids(&schedule), vec![4, 3, 1, 2, 0]);
}

#[test]
fn missing_reference_leaves_the_label_at_the_end() {
    let mut schedule = TestSchedule::default();
    schedule.add_label_before(Label { id: 7, name: "Seven" }, Physics);
    assert_eq!(ids(&schedule), vec![0, 1, 2, 3, 4, 7]);
    schedule.add_label_after(First, Physics);
    assert_eq!(ids(&schedule), vec![0, 1, 2, 3, 4, 7]);
}

#[test]
fn builders_hand_back_the_schedule() {
    let mut schedule = TestSchedule::default();
    schedule.add_label(Physics).add_label_before(Last, First).add_label_after(Physics, Last).add_barrier(Update);
    assert_eq!(ids(&schedule), vec![4, 100, 0, 1, 2, 3]);
}

#[test]
fn labels_are_equal_when_their_identifiers_are() {
    assert_eq!(Label { id: 7, name: "Seven" }, Label { id: 7, name: "Sept" });
    assert_ne!(Label { id: 7, name: "Seven" }, Label { id: 8, name: "Seven" });
}

#[test]
fn label_of_a_new_set_goes_to_the_end_of_the_order() {
    let mut schedule = TestSchedule::default();
    schedule.add_barrier(Physics);
    assert_eq!(ids(&schedule), vec![0, 1, 2, 3, 4, 100]);
    let sets = schedule.into_sets();
    assert_eq!(sets.len(), 1);
    assert_eq!(sets.get(&100).unwrap().as_steps().len(), 1);
}
