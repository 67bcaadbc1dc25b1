use tmsocial::autodb::AutoSerialize;

#[test]
fn no_change_without_commit() {
    let v = AutoSerialize::new("foo", 5);
    let mut v_edit = v.edit();
    v_edit.set(3);
    assert_eq!(v.get(), 5);
}

#[test]
fn commit_works() {
    let mut v = AutoSerialize::new("foo", 5);
    let mut v_edit = v.edit();
    v_edit.set(3);
    let changed = v_edit.commit(&mut v);
    assert!(changed);
    assert_eq!(v.get(), 3);
}

#[test]
fn commit_without_change_keeps_value() {
    let mut v = AutoSerialize::new("foo", 5);
    let v_edit = v.edit();
    let changed = v_edit.commit(&mut v);
    assert!(!changed);
    assert_eq!(v.get(), 5);
    assert_eq!(v.path(), "foo");
}
