use sparsey::system::{any_conflict, SystemParamKind};
use sparsey::util::TypeData;

fn all_kinds(t: TypeData) -> Vec<SystemParamKind> {
    vec![
        SystemParamKind::Entities,
        SystemParamKind::Local(t),
        SystemParamKind::Comp(t),
        SystemParamKind::CompMut(t),
        SystemParamKind::Res(t),
        SystemParamKind::ResMut(t),
        SystemParamKind::NonSend(t),
        SystemParamKind::NonSendMut(t),
    ]
}

#[test]
fn shared_accesses_of_one_type_do_not_conflict() {
    let t = TypeData::new(7);
    assert!(!SystemParamKind::Comp(t).conflicts_with(SystemParamKind::Comp(t)));
    assert!(!SystemParamKind::Res(t).conflicts_with(SystemParamKind::Res(t)));
    assert!(!SystemParamKind::NonSend(t).conflicts_with(SystemParamKind::NonSend(t)));
}

#[test]
fn exclusive_access_conflicts_with_every_access_of_its_type() {
    let t = TypeData::new(7);
    assert!(SystemParamKind::Comp(t).conflicts_with(SystemParamKind::CompMut(t)));
    assert!(SystemParamKind::CompMut(t).conflicts_with(SystemParamKind::Comp(t)));
    assert!(SystemParamKind::CompMut(t).conflicts_with(SystemParamKind::CompMut(t)));
    assert!(SystemParamKind::Res(t).conflicts_with(SystemParamKind::ResMut(t)));
    assert!(SystemParamKind::ResMut(t).conflicts_with(SystemParamKind::Res(t)));
    assert!(SystemParamKind::ResMut(t).conflicts_with(SystemParamKind::ResMut(t)));
    assert!(SystemParamKind::NonSend(t).conflicts_with(SystemParamKind::NonSendMut(t)));
    assert!(SystemParamKind::NonSendMut(t).conflicts_with(SystemParamKind::NonSend(t)));
    assert!(SystemParamKind::NonSendMut(t).conflicts_with(SystemParamKind::NonSendMut(t)));
}

#[test]
fn different_types_never_conflict() {
    for a in all_kinds(TypeData::new(1)) {
        for b in all_kinds(TypeData::new(2)) {
            assert!(!a.conflicts_with(b));
        }
    }
}

#[test]
fn entities_and_local_state_conflict_with_nothing() {
    let t = TypeData::new(3);
    for other in all_kinds(t) {
        assert!(!SystemParamKind::Entities.conflicts_with(other));
        assert!(!other.conflicts_with(SystemParamKind::Entities));
        assert!(!SystemParamKind::Local(t).conflicts_with(other));
        assert!(!other.conflicts_with(SystemParamKind::Local(t)));
    }
}

#[test]
fn components_and_resources_of_one_type_do_not_conflict() {
    let t = TypeData::new(4);
    assert!(!SystemParamKind::CompMut(t).conflicts_with(SystemParamKind::ResMut(t)));
    assert!(!SystemParamKind::ResMut(t).conflicts_with(SystemParamKind::NonSendMut(t)));
    assert!(!SystemParamKind::NonSendMut(t).conflicts_with(SystemParamKind::CompMut(t)));
}

#[test]
fn conflict_is_symmetric() {
    let t = TypeData::new(5);
    for a in all_kinds(t) {
        for b in all_kinds(t) {
            assert_eq!(a.conflicts_with(b), b.conflicts_with(a));
        }
    }
}

#[test]
fn kind_lists_conflict_when_one_pair_does() {
    let t = TypeData::new(1);
    let u = TypeData::new(2);
    let readers = vec![SystemParamKind::Comp(t), SystemParamKind::Res(u)];
    let writer = vec![SystemParamKind::Entities, SystemParamKind::ResMut(u)];
    assert!(any_conflict(&readers, &writer));
    assert!(any_conflict(&writer, &readers));
    assert!(!any_conflict(&readers, &readers));
    assert!(!any_conflict(&readers, &[]));
    assert!(SystemParamKind::ResMut(u).is_exclusive_access());
    assert!(!SystemParamKind::Res(u).is_exclusive_access());
    assert!(SystemParamKind::NonSend(u).is_thread_bound_access());
    assert!(!SystemParamKind::Comp(u).is_thread_bound_access());
    assert_eq!(t.id(), 1);
}
