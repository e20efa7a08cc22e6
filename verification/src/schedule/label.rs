//! Labels: the names of the sets of a schedule.

use vstd::prelude::*;

verus! {

/// A strongly-typed class of labels used to identify a set of a schedule.
/// Two labels name the same set exactly when their identifiers are equal:
/// each type of label has one identifier, whatever data its values hold.
pub trait ScheduleLabel {
    /// The identifier of the label.
    spec fn label_id(&self) -> u64;

    /// Returns the identifier of the label.
    fn id(&self) -> (id: u64)
        ensures
            id == self.label_id(),
    ;

    /// The name of the label.
    spec fn label_name(&self) -> &'static str;

    /// The name of this label.
    fn name(&self) -> (name: &'static str)
        ensures
            name == self.label_name(),
    ;
}

/// A label as a schedule keeps it: its identifier and its name.
#[derive(Clone, Copy, Debug)]
pub struct Label {
    /// The identifier, by which labels are compared.
    pub id: u64,
    /// The name, for display.
    pub name: &'static str,
}

impl PartialEq for Label {
    fn eq(&self, other: &Label) -> (equal: bool) {
        self.id == other.id
    }
}

impl Eq for Label {}

impl vstd::std_specs::cmp::PartialEqSpecImpl for Label {
    open spec fn obeys_eq_spec() -> bool {
        true
    }

    open spec fn eq_spec(&self, other: &Label) -> bool {
        self.id == other.id
    }
}

impl ScheduleLabel for Label {
    open spec fn label_id(&self) -> u64 {
        self.id
    }

    open spec fn label_name(&self) -> &'static str {
        self.name
    }

    fn id(&self) -> (id: u64) {
        self.id
    }

    fn name(&self) -> (name: &'static str) {
        self.name
    }
}

/// The identifiers of the given labels, in order.
pub open spec fn label_ids(labels: Seq<Label>) -> Seq<u64> {
    labels.map_values(|label: Label| label.id)
}

/// Identifies systems that should be executed first.
#[derive(Default, Debug, Clone, Copy, PartialEq, Eq, Hash)]
pub struct First;

/// Identifies systems that should execute before the main update loop.
#[derive(Default, Debug, Clone, Copy, PartialEq, Eq, Hash)]
pub struct PreUpdate;

/// Identifies systems that should be run as part of the main update loop.
#[derive(Default, Debug, Clone, Copy, PartialEq, Eq, Hash)]
pub struct Update;

/// Identifies systems that should run after the main update loop.
#[derive(Default, Debug, Clone, Copy, PartialEq, Eq, Hash)]
pub struct PostUpdate;

/// Identifies systems that should run last.
#[derive(Default, Debug, Clone, Copy, PartialEq, Eq, Hash)]
pub struct Last;

/// The identifier of [`First`].
pub const FIRST_ID: u64 = 0;

/// The identifier of [`PreUpdate`].
pub const PRE_UPDATE_ID: u64 = 1;

/// The identifier of [`Update`].
pub const UPDATE_ID: u64 = 2;

/// The identifier of [`PostUpdate`].
pub const POST_UPDATE_ID: u64 = 3;

/// The identifier of [`Last`].
pub const LAST_ID: u64 = 4;

impl ScheduleLabel for First {
    open spec fn label_id(&self) -> u64 {
        FIRST_ID
    }

    open spec fn label_name(&self) -> &'static str {
        "First"
    }

    fn id(&self) -> (id: u64) {
        FIRST_ID
    }

    fn name(&self) -> (name: &'static str) {
        "First"
    }
}

impl ScheduleLabel for PreUpdate {
    open spec fn label_id(&self) -> u64 {
        PRE_UPDATE_ID
    }

    open spec fn label_name(&self) -> &'static str {
        "PreUpdate"
    }

    fn id(&self) -> (id: u64) {
        PRE_UPDATE_ID
    }

    fn name(&self) -> (name: &'static str) {
        "PreUpdate"
    }
}

impl ScheduleLabel for Update {
    open spec fn label_id(&self) -> u64 {
        UPDATE_ID
    }

    open spec fn label_name(&self) -> &'static str {
        "Update"
    }

    fn id(&self) -> (id: u64) {
        UPDATE_ID
    }

    fn name(&self) -> (name: &'static str) {
        "Update"
    }
}

impl ScheduleLabel for PostUpdate {
    open spec fn label_id(&self) -> u64 {
        POST_UPDATE_ID
    }

    open spec fn label_name(&self) -> &'static str {
        "PostUpdate"
    }

    fn id(&self) -> (id: u64) {
        POST_UPDATE_ID
    }

    fn name(&self) -> (name: &'static str) {
        "PostUpdate"
    }
}

impl ScheduleLabel for Last {
    open spec fn label_id(&self) -> u64 {
        LAST_ID
    }

    open spec fn label_name(&self) -> &'static str {
        "Last"
    }

    fn id(&self) -> (id: u64) {
        LAST_ID
    }

    fn name(&self) -> (name: &'static str) {
        "Last"
    }
}

} // verus!
