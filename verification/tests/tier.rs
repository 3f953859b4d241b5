use omst::shadow::UidRange;
use omst::winapi::Priv;
use omst::Permissions;
use omst::ResultExt;

#[test]
fn byte_values() {
    assert_eq!(Permissions::Guest.byte(), b'%');
    assert_eq!(Permissions::User.byte(), b'$');
    assert_eq!(Permissions::System.byte(), b'@');
    assert_eq!(Permissions::Absolute.byte(), b'#');
}

#[test]
fn be_values() {
    assert_eq!(Permissions::Guest.be(), '%');
    assert_eq!(Permissions::User.be(), '$');
    assert_eq!(Permissions::System.be(), '@');
    assert_eq!(Permissions::Absolute.be(), '#');
}

#[test]
fn byte_round_trip() {
    for p in [
        Permissions::Guest,
        Permissions::User,
        Permissions::System,
        Permissions::Absolute,
    ] {
        assert_eq!(Permissions::from_byte(p.byte()), Some(p));
    }
    assert_eq!(Permissions::from_byte(b'?'), None);
    assert_eq!(Permissions::from_byte(0), None);
}

#[test]
fn names() {
    assert_eq!(Permissions::Guest.name(), "guest");
    assert_eq!(Permissions::User.name(), "user");
    assert_eq!(Permissions::System.name(), "system");
    assert_eq!(Permissions::Absolute.name(), "absolute");
}

#[test]
fn ordered_by_privilege() {
    assert!(Permissions::Guest < Permissions::User);
    assert!(Permissions::User < Permissions::System);
    assert!(Permissions::System < Permissions::Absolute);
}

#[test]
fn from_uid_range() {
    assert_eq!(Permissions::from(UidRange::AboveMax), Permissions::Guest);
    assert_eq!(Permissions::from(UidRange::InRange), Permissions::User);
    assert_eq!(Permissions::from(UidRange::BelowMin), Permissions::System);
    assert_eq!(Permissions::from(UidRange::Zero), Permissions::Absolute);
}

#[test]
fn from_priv() {
    assert_eq!(Permissions::from(Priv::Guest), Permissions::Guest);
    assert_eq!(Permissions::from(Priv::User), Permissions::User);
    assert_eq!(Permissions::from(Priv::Admin), Permissions::Absolute);
}

#[test]
fn result_ext_byte_and_be() {
    let ok: Result<Permissions, omst::Error> = Ok(Permissions::User);
    assert_eq!(ok.byte(), b'$');
    let ok: Result<Permissions, omst::Error> = Ok(Permissions::User);
    assert_eq!(ok.be(), '$');

    let err: Result<Permissions, omst::Error> = Err(omst::Error::InvalidDef {
        def: omst::shadow::Def::Min,
        problem: omst::shadow::Problem::Missing,
    });
    assert_eq!(err.byte(), b'?');
    let err: Result<Permissions, omst::Error> = Err(omst::Error::InvalidDef {
        def: omst::shadow::Def::Min,
        problem: omst::shadow::Problem::Missing,
    });
    assert_eq!(err.be(), '?');
}

#[test]
fn result_ext_display() {
    let ok: Result<Permissions, omst::Error> = Ok(Permissions::Guest);
    assert_eq!(ok.display().message(), "guest");

    let err: Result<Permissions, omst::Error> = Err(omst::Error::InvalidDef {
        def: omst::shadow::Def::Max,
        problem: omst::shadow::Problem::Empty,
    });
    assert_eq!(
        err.display().message(),
        "UID_MAX in /etc/login.defs was empty"
    );
}
