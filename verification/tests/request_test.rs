#![allow(unused_variables, unused_mut)]

use plexrbac::common::ActionType;
use plexrbac::security::request::PermissionRequest;

#[test]
fn test_create_new() {
    let req = PermissionRequest::new("1", "2", ActionType::READ, "App", "com.plexobject");
    assert_eq!("READ", req.action);
}

#[test]
fn test_create_with() {
    let req = PermissionRequest::with("1", "2", "READ", "App", "com.plexobject");
    assert_eq!("READ", req.action);
}
