use omst::winapi::{
    omst, priv_from_code, Error, Operation, Priv, Releaser, UserInfo, USER_PRIV_ADMIN,
    USER_PRIV_GUEST, USER_PRIV_USER,
};

#[test]
fn priv_codes() {
    assert_eq!(priv_from_code(USER_PRIV_GUEST), Ok(Priv::Guest));
    assert_eq!(priv_from_code(USER_PRIV_USER), Ok(Priv::User));
    assert_eq!(priv_from_code(USER_PRIV_ADMIN), Ok(Priv::Admin));
    assert_eq!(priv_from_code(7), Err(Error::InvalidPriv { data: 7 }));
}

#[test]
fn release_runs_once_on_success() {
    let mut releaser = Releaser::new();
    assert_eq!(releaser.count, 0);
    let r = omst(UserInfo { privilege: USER_PRIV_USER }, &mut releaser);
    assert_eq!(r, Ok(Priv::User));
    assert_eq!(releaser.count, 1);
}

#[test]
fn release_runs_once_on_invalid_privilege() {
    let mut releaser = Releaser::new();
    let r = omst(UserInfo { privilege: 31 }, &mut releaser);
    assert_eq!(r, Err(Error::InvalidPriv { data: 31 }));
    assert_eq!(releaser.count, 1);
}

#[test]
fn release_counts_each_record() {
    let mut releaser = Releaser::new();
    let _ = omst(UserInfo { privilege: USER_PRIV_ADMIN }, &mut releaser);
    let _ = omst(UserInfo { privilege: 99 }, &mut releaser);
    let _ = omst(UserInfo { privilege: USER_PRIV_GUEST }, &mut releaser);
    assert_eq!(releaser.count, 3);
}

#[test]
fn operation_names() {
    assert_eq!(Operation::GetUserName.name(), "get username");
    assert_eq!(Operation::NetUserGetInfo.name(), "get user info");
}

#[test]
fn get_priv_message() {
    let e = Error::GetPriv {
        operation: Operation::GetUserName,
        error: String::from("access denied"),
    };
    assert_eq!(e.message(), "could not get username due to error: access denied");
}

#[test]
fn invalid_priv_message_is_hex() {
    let e = Error::InvalidPriv { data: 31 };
    assert_eq!(e.message(), "user privileges had invalid value (0x1f)");
    let e = Error::InvalidPriv { data: 255 };
    assert_eq!(e.message(), "user privileges had invalid value (0xff)");
    let e = Error::InvalidPriv { data: 16 };
    assert_eq!(e.message(), "user privileges had invalid value (0x10)");
}
