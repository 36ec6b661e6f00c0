use universe::connection::ClientInfo;
use universe::contact_options::{
    ContactOptions, ALL_ALLOWED, ALL_BLOCKED, FRIEND_REQUEST_ALLOWED, FRIEND_REQUEST_BLOCKED,
    TELEGRAMS_ALLOWED, TELEGRAMS_BLOCKED,
};
use universe::packet::{AWPacket, PacketType, PacketValue, VarID};
use universe::reason::ReasonCode;
use universe::records::{CitizenQuery, DatabaseResult};
use universe::server::UniverseServer;
use universe::world_name::check_valid_world_name;

fn citizen(id: u32, name: &str) -> CitizenQuery {
    CitizenQuery {
        id,
        changed: 0,
        name: name.to_string(),
        password: "pw".to_string(),
        email: "e@example.invalid".to_string(),
        priv_pass: "priv".to_string(),
        comment: "original comment".to_string(),
        url: "".to_string(),
        immigration: 1000,
        expiration: 0,
        last_login: 0,
        last_address: 0,
        total_time: 0,
        bot_limit: 3,
        beta: 0,
        cav_enabled: 0,
        cav_template: 0,
        enabled: 1,
        privacy: 0,
        trial: 0,
    }
}

fn setup_with(names: &[(u32, &str)]) -> UniverseServer {
    let mut server = UniverseServer::new();
    for (id, name) in names {
        match server.database.citizen_add(&citizen(*id, name)) {
            DatabaseResult::Success(Some(())) => {}
            _ => panic!("could not seed citizen"),
        }
    }
    server
}

fn connect_and_login(server: &mut UniverseServer, cid: u32, cit_id: u32, name: &str) {
    assert!(server.connections.insert(cid, 0x0a000001 + cid));
    assert!(server
        .connections
        .login_citizen(cid, name.to_string(), cit_id, 0));
}

fn queue_of(server: &UniverseServer, cid: u32) -> &Vec<AWPacket> {
    let i = server
        .connections
        .connections
        .iter()
        .position(|c| c.cid == cid)
        .expect("connection");
    &server.connections.connections[i].outgoing
}

fn last_rc_of_type(server: &UniverseServer, cid: u32, pt: PacketType) -> Option<ReasonCode> {
    queue_of(server, cid)
        .iter()
        .rev()
        .find(|p| p.packet_type == pt)
        .and_then(|p| p.get_reason(VarID::ReasonCode))
}

#[test]
fn world_name_rules() {
    assert_eq!(check_valid_world_name(""), Err(ReasonCode::NameTooShort));
    assert_eq!(check_valid_world_name("a"), Err(ReasonCode::NameTooShort));
    assert_eq!(check_valid_world_name("ab"), Ok(()));
    assert_eq!(check_valid_world_name("abcdefgh"), Ok(()));
    assert_eq!(
        check_valid_world_name("abcdefghi"),
        Err(ReasonCode::NameTooLong)
    );
    assert_eq!(
        check_valid_world_name("ab cd"),
        Err(ReasonCode::NameContainsNonalphanumericChar)
    );
    assert_eq!(
        check_valid_world_name(" ab"),
        Err(ReasonCode::NameContainsInvalidBlank)
    );
    assert_eq!(
        check_valid_world_name("ab "),
        Err(ReasonCode::NameEndsWithBlank)
    );
}

#[test]
fn contact_options_bit_round_trip() {
    assert_eq!(ContactOptions::from_bits(0x3ff).map(|o| o.bits), Some(0x3ff));
    assert_eq!(ContactOptions::from_bits(0x400), None);
    assert_eq!(ContactOptions::from_bits_truncate(0xffff_ffff).bits, 0x3ff);
    let o = ContactOptions::from_bits_truncate(ALL_BLOCKED | TELEGRAMS_BLOCKED);
    assert!(o.contains(ALL_BLOCKED));
    assert!(o.contains(TELEGRAMS_BLOCKED));
    assert!(!o.contains(FRIEND_REQUEST_BLOCKED));
}

#[test]
fn apply_changes_touches_only_selected_groups() {
    // Stored: telegrams blocked (explicitly set), everything else clear.
    let stored = ContactOptions {
        bits: TELEGRAMS_BLOCKED | TELEGRAMS_ALLOWED,
    };
    // Delta touches the whole-contact group only.
    let delta = ContactOptions {
        bits: ALL_BLOCKED | ALL_ALLOWED,
    };
    let merged = stored.apply_changes(delta);
    assert!(merged.contains(TELEGRAMS_BLOCKED));
    assert!(merged.contains(ALL_BLOCKED));
    // A delta that does not touch a group leaves it alone.
    let clear_all = ContactOptions { bits: ALL_ALLOWED };
    let merged2 = merged.apply_changes(clear_all);
    assert!(!merged2.contains(ALL_BLOCKED));
    assert!(merged2.contains(TELEGRAMS_BLOCKED));
    // Untouched delta changes nothing.
    let noop = ContactOptions { bits: 0 };
    assert_eq!(merged.apply_changes(noop).bits, merged.bits);
}

#[test]
fn packet_typed_reads() {
    let mut p = AWPacket::new(PacketType::TelegramSend);
    p.add_uint(VarID::CitizenNumber, 7);
    p.add_string(VarID::CitizenName, "Ada".to_string());
    p.add_byte(VarID::TelegramsMoreRemain, 1);
    p.add_int(VarID::ContactListOptions, -1);
    assert_eq!(p.get_uint(VarID::CitizenNumber), Some(7));
    assert_eq!(p.get_string(VarID::CitizenName).as_deref(), Some("Ada"));
    assert_eq!(p.get_byte(VarID::TelegramsMoreRemain), Some(1));
    assert_eq!(p.get_int(VarID::ContactListOptions), Some(-1));
    // A read of the wrong type reports absence.
    assert_eq!(p.get_string(VarID::CitizenNumber), None);
    assert_eq!(p.get_uint(VarID::CitizenName), None);
    assert_eq!(p.get_uint(VarID::WorldName), None);
}

fn contact_add_packet(name: &str, options: u32) -> AWPacket {
    let mut p = AWPacket::new(PacketType::ContactAdd);
    p.add_string(VarID::ContactListName, name.to_string());
    p.add_uint(VarID::ContactListOptions, options);
    p
}

#[test]
fn friend_request_telegram_and_delivery() {
    // S1: A(id 2) and B(id 3) online; A requests B; B's telegram renders
    // the request body and no more remain.
    let mut server = setup_with(&[(2, "A"), (3, "B")]);
    connect_and_login(&mut server, 10, 2, "A");
    connect_and_login(&mut server, 11, 3, "B");
    universe::contact::contact_add(&mut server, 10, &contact_add_packet("B", 0));
    assert_eq!(
        last_rc_of_type(&server, 10, PacketType::ContactAdd),
        Some(ReasonCode::Success)
    );
    // B was nudged about the new telegram.
    assert!(queue_of(&server, 11)
        .iter()
        .any(|p| p.packet_type == PacketType::TelegramNotify));
    universe::telegram::telegram_get(&mut server, 11, &AWPacket::new(PacketType::TelegramDeliver));
    let deliver = queue_of(&server, 11)
        .iter()
        .rev()
        .find(|p| p.packet_type == PacketType::TelegramDeliver)
        .expect("delivery");
    assert_eq!(
        deliver.get_reason(VarID::ReasonCode),
        Some(ReasonCode::Success)
    );
    assert_eq!(
        deliver.get_string(VarID::TelegramMessage).as_deref(),
        Some("\n\x01(2)A\n")
    );
    assert_eq!(deliver.get_byte(VarID::TelegramsMoreRemain), Some(0));
    assert_eq!(
        deliver.get_string(VarID::TelegramCitizenName).as_deref(),
        Some("A")
    );
}

#[test]
fn confirm_makes_mutual_pair() {
    // A requests, B confirms with arbitrary non-minus-one options: both
    // edges end cleared.
    let mut server = setup_with(&[(2, "A"), (3, "B")]);
    connect_and_login(&mut server, 10, 2, "A");
    connect_and_login(&mut server, 11, 3, "B");
    universe::contact::contact_add(&mut server, 10, &contact_add_packet("B", 0));
    // The pending edge carries the pending marker.
    match server.database.contact_get(2, 3) {
        DatabaseResult::Success(Some(c)) => {
            assert!(c.options.contains(FRIEND_REQUEST_BLOCKED));
            assert!(!c.options.contains(FRIEND_REQUEST_ALLOWED));
        }
        _ => panic!("pending edge missing"),
    }
    let mut confirm = AWPacket::new(PacketType::ContactConfirm);
    confirm.add_uint(VarID::ContactListCitizenID, 2);
    confirm.add_uint(VarID::ContactListOptions, 0x15);
    universe::contact::contact_confirm(&mut server, 11, &confirm);
    assert_eq!(
        last_rc_of_type(&server, 11, PacketType::ContactConfirm),
        Some(ReasonCode::Success)
    );
    for (a, b) in [(2u32, 3u32), (3, 2)] {
        match server.database.contact_get(a, b) {
            DatabaseResult::Success(Some(c)) => assert_eq!(c.options.bits, 0),
            _ => panic!("edge missing"),
        }
    }
}

#[test]
fn opposite_request_refused() {
    // A requested B; B's own request back reports the contact cannot be
    // set.
    let mut server = setup_with(&[(2, "A"), (3, "B")]);
    connect_and_login(&mut server, 10, 2, "A");
    connect_and_login(&mut server, 11, 3, "B");
    universe::contact::contact_add(&mut server, 10, &contact_add_packet("B", 0));
    universe::contact::contact_add(&mut server, 11, &contact_add_packet("A", 0));
    assert_eq!(
        last_rc_of_type(&server, 11, PacketType::ContactAdd),
        Some(ReasonCode::UnableToSetContact)
    );
}

#[test]
fn blocking_deletes_reverse_edge() {
    // S2: a block toward B removes B's edge toward A.
    let mut server = setup_with(&[(2, "A"), (3, "B")]);
    connect_and_login(&mut server, 10, 2, "A");
    let _ = server.database.contact_set(2, 3, 0);
    let _ = server.database.contact_set(3, 2, 0);
    let mut change = AWPacket::new(PacketType::ContactChange);
    change.add_uint(VarID::ContactListCitizenID, 3);
    change.add_uint(VarID::ContactListOptions, ALL_BLOCKED | ALL_ALLOWED);
    universe::contact::contact_change(&mut server, 10, &change);
    match server.database.contact_get(3, 2) {
        DatabaseResult::Success(None) => {}
        _ => panic!("reverse edge should be gone"),
    }
    match server.database.contact_get(2, 3) {
        DatabaseResult::Success(Some(c)) => assert!(c.options.contains(ALL_BLOCKED)),
        _ => panic!("own edge should remain"),
    }
}

#[test]
fn default_mask_persists_to_privacy() {
    let mut server = setup_with(&[(2, "A")]);
    connect_and_login(&mut server, 10, 2, "A");
    let mut change = AWPacket::new(PacketType::ContactChange);
    change.add_uint(VarID::ContactListCitizenID, 0);
    change.add_uint(VarID::ContactListOptions, TELEGRAMS_BLOCKED | TELEGRAMS_ALLOWED);
    universe::contact::contact_change(&mut server, 10, &change);
    match server.database.citizen_by_number(2) {
        DatabaseResult::Success(Some(c)) => {
            assert_eq!(c.privacy, TELEGRAMS_BLOCKED | TELEGRAMS_ALLOWED)
        }
        _ => panic!("citizen missing"),
    }
}

fn license_packet(name: &str) -> AWPacket {
    let mut p = AWPacket::new(PacketType::LicenseAdd);
    p.add_string(VarID::WorldName, name.to_string());
    p.add_string(VarID::WorldLicensePassword, "wp".to_string());
    p.add_string(VarID::WorldLicenseEmail, "w@example.invalid".to_string());
    p.add_string(VarID::WorldLicenseComment, "wc".to_string());
    p.add_uint(VarID::WorldLicenseExpiration, 0);
    p.add_uint(VarID::WorldLicenseHidden, 0);
    p.add_uint(VarID::WorldLicenseTourists, 1);
    p.add_uint(VarID::WorldLicenseUsers, 50);
    p.add_uint(VarID::WorldLicenseRange, 100);
    p.add_uint(VarID::WorldLicenseVoip, 0);
    p.add_uint(VarID::WorldLicensePlugins, 0);
    p
}

#[test]
fn license_add_authorization_and_duplicates() {
    // S3: a non-administrator is refused; the operator succeeds; a repeat
    // reports the world exists.
    let mut server = setup_with(&[(1, "Operator"), (2, "A")]);
    connect_and_login(&mut server, 10, 2, "A");
    connect_and_login(&mut server, 11, 1, "Operator");
    universe::license::license_add(&mut server, 10, &license_packet("FooBar"));
    assert_eq!(
        last_rc_of_type(&server, 10, PacketType::LicenseChangeResult),
        Some(ReasonCode::Unauthorized)
    );
    universe::license::license_add(&mut server, 11, &license_packet("FooBar"));
    assert_eq!(
        last_rc_of_type(&server, 11, PacketType::LicenseChangeResult),
        Some(ReasonCode::Success)
    );
    universe::license::license_add(&mut server, 11, &license_packet("FooBar"));
    assert_eq!(
        last_rc_of_type(&server, 11, PacketType::LicenseChangeResult),
        Some(ReasonCode::WorldAlreadyExists)
    );
}

#[test]
fn license_change_preserves_identity_fields() {
    let mut server = setup_with(&[(1, "Operator")]);
    connect_and_login(&mut server, 11, 1, "Operator");
    universe::license::license_add(&mut server, 11, &license_packet("World1"));
    let before = match server.database.license_by_name("World1") {
        DatabaseResult::Success(Some(l)) => l,
        _ => panic!("license missing"),
    };
    let mut change2 = AWPacket::new(PacketType::LicenseChange);
    change2.add_string(VarID::WorldName, "World1".to_string());
    change2.add_string(VarID::WorldLicensePassword, "newpw".to_string());
    change2.add_string(VarID::WorldLicenseEmail, "n@example.invalid".to_string());
    change2.add_string(VarID::WorldLicenseComment, "nc".to_string());
    change2.add_uint(VarID::WorldLicenseExpiration, 9);
    change2.add_uint(VarID::WorldLicenseHidden, 1);
    change2.add_uint(VarID::WorldLicenseTourists, 0);
    change2.add_uint(VarID::WorldLicenseUsers, 10);
    change2.add_uint(VarID::WorldLicenseRange, 20);
    change2.add_uint(VarID::WorldLicenseVoip, 1);
    change2.add_uint(VarID::WorldLicensePlugins, 1);
    universe::license::license_change(&mut server, 11, &change2);
    let after = match server.database.license_by_name("World1") {
        DatabaseResult::Success(Some(l)) => l,
        _ => panic!("license missing after change"),
    };
    assert_eq!(after.id, before.id);
    assert_eq!(after.creation, before.creation);
    assert_eq!(after.password, "newpw");
    assert_eq!(after.users, 10);
    assert_eq!(
        last_rc_of_type(&server, 11, PacketType::LicenseResult),
        Some(ReasonCode::Success)
    );
}

#[test]
fn license_name_iteration() {
    let mut server = setup_with(&[(1, "Operator")]);
    connect_and_login(&mut server, 11, 1, "Operator");
    universe::license::license_add(&mut server, 11, &license_packet("Alpha"));
    universe::license::license_add(&mut server, 11, &license_packet("Gamma"));
    let mut ask = AWPacket::new(PacketType::LicenseNext);
    ask.add_string(VarID::WorldName, "Beta".to_string());
    universe::license::license_next(&mut server, 11, &ask);
    let found = queue_of(&server, 11)
        .iter()
        .rev()
        .find(|p| p.packet_type == PacketType::LicenseResult)
        .expect("lookup result");
    assert_eq!(found.get_string(VarID::WorldName).as_deref(), Some("Gamma"));
    let mut ask2 = AWPacket::new(PacketType::LicensePrev);
    ask2.add_string(VarID::WorldName, "Beta".to_string());
    universe::license::license_prev(&mut server, 11, &ask2);
    let found2 = queue_of(&server, 11)
        .iter()
        .rev()
        .find(|p| p.packet_type == PacketType::LicenseResult)
        .expect("lookup result");
    assert_eq!(found2.get_string(VarID::WorldName).as_deref(), Some("Alpha"));
}

#[test]
fn telegram_blocked_when_target_blocks() {
    // S4: B blocks telegrams from A; A's send is refused and nothing is
    // stored for B.
    let mut server = setup_with(&[(2, "A"), (3, "B")]);
    connect_and_login(&mut server, 10, 2, "A");
    let _ = server
        .database
        .contact_set(3, 2, TELEGRAMS_BLOCKED | TELEGRAMS_ALLOWED);
    let count_before = match server.database.telegram_count_undelivered(3) {
        DatabaseResult::Success(c) => c,
        _ => panic!("count"),
    };
    let mut send = AWPacket::new(PacketType::TelegramSend);
    send.add_string(VarID::TelegramTo, "B".to_string());
    send.add_string(VarID::TelegramMessage, "hello".to_string());
    universe::telegram::telegram_send(&mut server, 10, &send);
    assert_eq!(
        last_rc_of_type(&server, 10, PacketType::TelegramSend),
        Some(ReasonCode::TelegramBlocked)
    );
    let count_after = match server.database.telegram_count_undelivered(3) {
        DatabaseResult::Success(c) => c,
        _ => panic!("count"),
    };
    assert_eq!(count_before, count_after);
}

#[test]
fn telegram_persists_for_offline_target_in_timestamp_order() {
    // P4: a telegram to an offline citizen is stored; delivery after the
    // target logs in comes oldest first.
    let mut server = setup_with(&[(2, "A"), (3, "B")]);
    connect_and_login(&mut server, 10, 2, "A");
    let mut send = AWPacket::new(PacketType::TelegramSend);
    send.add_string(VarID::TelegramTo, "B".to_string());
    send.add_string(VarID::TelegramMessage, "second".to_string());
    universe::telegram::telegram_send(&mut server, 10, &send);
    assert_eq!(
        last_rc_of_type(&server, 10, PacketType::TelegramSend),
        Some(ReasonCode::Success)
    );
    // An older message, stored directly with an earlier timestamp.
    let _ = server.database.telegram_add(3, 2, 1, "first");
    connect_and_login(&mut server, 11, 3, "B");
    universe::telegram::telegram_get(&mut server, 11, &AWPacket::new(PacketType::TelegramDeliver));
    let d1 = queue_of(&server, 11)
        .iter()
        .rev()
        .find(|p| p.packet_type == PacketType::TelegramDeliver)
        .expect("first delivery");
    assert_eq!(d1.get_string(VarID::TelegramMessage).as_deref(), Some("first"));
    // P5: a second message still waits.
    assert_eq!(d1.get_byte(VarID::TelegramsMoreRemain), Some(1));
    universe::telegram::telegram_get(&mut server, 11, &AWPacket::new(PacketType::TelegramDeliver));
    let d2 = queue_of(&server, 11)
        .iter()
        .rev()
        .find(|p| p.packet_type == PacketType::TelegramDeliver)
        .expect("second delivery");
    assert_eq!(d2.get_string(VarID::TelegramMessage).as_deref(), Some("second"));
    assert_eq!(d2.get_byte(VarID::TelegramsMoreRemain), Some(0));
}

#[test]
fn afk_updates_mutual_friends_only() {
    // S5: A toggles away; the mutual friend B sees an update with A's
    // flag, the stranger C sees nothing.
    let mut server = setup_with(&[(2, "A"), (3, "B"), (4, "C")]);
    connect_and_login(&mut server, 10, 2, "A");
    connect_and_login(&mut server, 11, 3, "B");
    connect_and_login(&mut server, 12, 4, "C");
    let _ = server.database.contact_set(2, 3, 0);
    let _ = server.database.contact_set(3, 2, 0);
    let c_before = queue_of(&server, 12).len();
    let mut afk = AWPacket::new(PacketType::SetAfk);
    afk.add_uint(VarID::AFKStatus, 1);
    universe::contact::set_afk(&mut server, 10, &afk);
    let update = queue_of(&server, 11)
        .iter()
        .rev()
        .find(|p| {
            p.packet_type == PacketType::ContactList
                && p.get_uint(VarID::ContactListCitizenID) == Some(2)
        })
        .expect("B should see A's update");
    // Status 2 encodes present but away.
    assert_eq!(update.get_uint(VarID::ContactListStatus), Some(2));
    assert_eq!(queue_of(&server, 12).len(), c_before);
}

#[test]
fn eject_add_and_lookup_lifecycle() {
    // S6: the operator ejects an address; the lookup reports it while it
    // is in force and absence after it expires.
    let mut server = setup_with(&[(1, "Operator")]);
    connect_and_login(&mut server, 11, 1, "Operator");
    let now = 1000u32;
    let mut add = AWPacket::new(PacketType::EjectAdd);
    add.add_uint(VarID::EjectionAddress, 0x01020304);
    add.add_uint(VarID::EjectionExpiration, now + 60);
    add.add_string(VarID::EjectionComment, "x".to_string());
    universe::eject::eject_add_at(&mut server, 11, &add, now);
    assert_eq!(
        last_rc_of_type(&server, 11, PacketType::EjectResult),
        Some(ReasonCode::Success)
    );
    universe::eject::eject_lookup_by_method(
        &mut server,
        11,
        0x01020304,
        universe::eject::EjectionLookupMethod::Exact,
        now,
    );
    let found = queue_of(&server, 11)
        .iter()
        .rev()
        .find(|p| p.packet_type == PacketType::EjectResult)
        .expect("lookup");
    assert_eq!(found.get_reason(VarID::ReasonCode), Some(ReasonCode::Success));
    assert_eq!(found.get_uint(VarID::EjectionAddress), Some(0x01020304));
    assert_eq!(found.get_string(VarID::EjectionComment).as_deref(), Some("x"));
    universe::eject::eject_lookup_by_method(
        &mut server,
        11,
        0x01020304,
        universe::eject::EjectionLookupMethod::Exact,
        now + 61,
    );
    assert_eq!(
        last_rc_of_type(&server, 11, PacketType::EjectResult),
        Some(ReasonCode::NoSuchEjection)
    );
}

#[test]
fn eject_neighbour_lookups() {
    let mut server = setup_with(&[(1, "Operator")]);
    connect_and_login(&mut server, 11, 1, "Operator");
    let _ = server.database.ejection_set(100, 9999, 1, "low");
    let _ = server.database.ejection_set(300, 9999, 1, "high");
    universe::eject::eject_lookup_by_method(
        &mut server,
        11,
        200,
        universe::eject::EjectionLookupMethod::Previous,
        1,
    );
    let found = queue_of(&server, 11)
        .iter()
        .rev()
        .find(|p| p.packet_type == PacketType::EjectResult)
        .expect("prev");
    assert_eq!(found.get_uint(VarID::EjectionAddress), Some(100));
    universe::eject::eject_lookup_by_method(
        &mut server,
        11,
        200,
        universe::eject::EjectionLookupMethod::Next,
        1,
    );
    let found2 = queue_of(&server, 11)
        .iter()
        .rev()
        .find(|p| p.packet_type == PacketType::EjectResult)
        .expect("next");
    assert_eq!(found2.get_uint(VarID::EjectionAddress), Some(300));
}

#[test]
fn duplicate_login_evicts_prior_connection() {
    // A citizen logged in twice keeps only the newer connection.
    let mut server = setup_with(&[(2, "A")]);
    connect_and_login(&mut server, 10, 2, "A");
    assert!(server.connections.insert(20, 0x0a000099));
    assert!(server.connections.login_citizen(20, "A".to_string(), 2, 0));
    assert_eq!(server.connections.connections.len(), 1);
    assert_eq!(server.connections.get_by_citizen_id(2), Some(20));
}

#[test]
fn nonadmin_citizen_change_keeps_admin_fields() {
    // P6: a citizen's own change request cannot reach the administrative
    // fields.
    let mut server = setup_with(&[(2, "A")]);
    connect_and_login(&mut server, 10, 2, "A");
    let mut p = AWPacket::new(PacketType::CitizenChange);
    p.add_string(VarID::CitizenName, "A".to_string());
    p.add_uint(VarID::CitizenNumber, 2);
    p.add_string(VarID::CitizenEmail, "new@example.invalid".to_string());
    p.add_string(VarID::CitizenPrivilegePassword, "np".to_string());
    p.add_uint(VarID::CitizenExpiration, 777);
    p.add_uint(VarID::CitizenBotLimit, 99);
    p.add_uint(VarID::BetaUser, 1);
    p.add_uint(VarID::CitizenEnabled, 0);
    p.add_string(VarID::CitizenComment, "hacked".to_string());
    p.add_string(VarID::CitizenPassword, "newpw".to_string());
    p.add_string(VarID::CitizenURL, "u".to_string());
    p.add_uint(VarID::CAVTemplate, 5);
    p.add_uint(VarID::CAVEnabled, 1);
    p.add_uint(VarID::CitizenPrivacy, 3);
    p.add_uint(VarID::TrialUser, 1);
    universe::citizen::citizen_change(&mut server, 10, &p);
    assert_eq!(
        last_rc_of_type(&server, 10, PacketType::CitizenChangeResult),
        Some(ReasonCode::Success)
    );
    let after = match server.database.citizen_by_number(2) {
        DatabaseResult::Success(Some(c)) => c,
        _ => panic!("citizen missing"),
    };
    // Self-serve fields changed.
    assert_eq!(after.email, "new@example.invalid");
    assert_eq!(after.password, "newpw");
    assert_eq!(after.privacy, 3);
    // Administrative fields kept.
    assert_eq!(after.comment, "original comment");
    assert_eq!(after.expiration, 0);
    assert_eq!(after.bot_limit, 3);
    assert_eq!(after.beta, 0);
    assert_eq!(after.enabled, 1);
    assert_eq!(after.trial, 0);
}

#[test]
fn citizen_change_on_other_account_unauthorized() {
    let mut server = setup_with(&[(2, "A"), (3, "B")]);
    connect_and_login(&mut server, 10, 2, "A");
    let mut p = AWPacket::new(PacketType::CitizenChange);
    p.add_string(VarID::CitizenName, "B".to_string());
    p.add_uint(VarID::CitizenNumber, 3);
    p.add_string(VarID::CitizenEmail, "x".to_string());
    p.add_string(VarID::CitizenPrivilegePassword, "x".to_string());
    p.add_uint(VarID::CitizenExpiration, 0);
    p.add_uint(VarID::CitizenBotLimit, 0);
    p.add_uint(VarID::BetaUser, 0);
    p.add_uint(VarID::CitizenEnabled, 1);
    p.add_string(VarID::CitizenComment, "c".to_string());
    p.add_string(VarID::CitizenPassword, "p".to_string());
    p.add_string(VarID::CitizenURL, "u".to_string());
    p.add_uint(VarID::CAVTemplate, 0);
    p.add_uint(VarID::CAVEnabled, 0);
    p.add_uint(VarID::CitizenPrivacy, 0);
    p.add_uint(VarID::TrialUser, 0);
    universe::citizen::citizen_change(&mut server, 10, &p);
    assert_eq!(
        last_rc_of_type(&server, 10, PacketType::CitizenChangeResult),
        Some(ReasonCode::Unauthorized)
    );
}

#[test]
fn citizen_rename_collision_refused() {
    let mut server = setup_with(&[(2, "A"), (3, "B")]);
    connect_and_login(&mut server, 10, 2, "A");
    let mut p = AWPacket::new(PacketType::CitizenChange);
    p.add_string(VarID::CitizenName, "b".to_string());
    p.add_uint(VarID::CitizenNumber, 2);
    p.add_string(VarID::CitizenEmail, "x".to_string());
    p.add_string(VarID::CitizenPrivilegePassword, "x".to_string());
    p.add_uint(VarID::CitizenExpiration, 0);
    p.add_uint(VarID::CitizenBotLimit, 0);
    p.add_uint(VarID::BetaUser, 0);
    p.add_uint(VarID::CitizenEnabled, 1);
    p.add_string(VarID::CitizenComment, "c".to_string());
    p.add_string(VarID::CitizenPassword, "p".to_string());
    p.add_string(VarID::CitizenURL, "u".to_string());
    p.add_uint(VarID::CAVTemplate, 0);
    p.add_uint(VarID::CAVEnabled, 0);
    p.add_uint(VarID::CitizenPrivacy, 0);
    p.add_uint(VarID::TrialUser, 0);
    universe::citizen::citizen_change(&mut server, 10, &p);
    // The lookup folds case, so "b" collides with citizen B.
    assert_eq!(
        last_rc_of_type(&server, 10, PacketType::CitizenChangeResult),
        Some(ReasonCode::NameAlreadyUsed)
    );
}

#[test]
fn contact_add_blocked_by_target() {
    let mut server = setup_with(&[(2, "A"), (3, "B")]);
    connect_and_login(&mut server, 10, 2, "A");
    let _ = server.database.contact_set(3, 2, ALL_BLOCKED | ALL_ALLOWED);
    universe::contact::contact_add(&mut server, 10, &contact_add_packet("B", 0));
    assert_eq!(
        last_rc_of_type(&server, 10, PacketType::ContactAdd),
        Some(ReasonCode::ContactAddBlocked)
    );
}

#[test]
fn contact_delete_is_symmetric_unless_blocked() {
    let mut server = setup_with(&[(2, "A"), (3, "B")]);
    connect_and_login(&mut server, 10, 2, "A");
    let _ = server.database.contact_set(2, 3, 0);
    let _ = server.database.contact_set(3, 2, 0);
    let mut del = AWPacket::new(PacketType::ContactDelete);
    del.add_uint(VarID::ContactListCitizenID, 3);
    universe::contact::contact_delete(&mut server, 10, &del);
    assert!(matches!(
        server.database.contact_get(2, 3),
        DatabaseResult::Success(None)
    ));
    assert!(matches!(
        server.database.contact_get(3, 2),
        DatabaseResult::Success(None)
    ));
}

#[test]
fn user_list_pages_from_continuation() {
    let mut server = setup_with(&[(2, "A"), (3, "B")]);
    connect_and_login(&mut server, 10, 2, "A");
    connect_and_login(&mut server, 11, 3, "B");
    universe::user_list::regenerate_player_list(&mut server, 10);
    let mut ask = AWPacket::new(PacketType::UserList);
    ask.add_uint(VarID::UserListContinuationID, 11);
    universe::user_list::user_list(&mut server, 10, &ask);
    let lines: Vec<_> = queue_of(&server, 10)
        .iter()
        .filter(|p| p.packet_type == PacketType::UserList)
        .collect();
    assert_eq!(lines.len(), 1);
    assert_eq!(lines[0].get_uint(VarID::UserListID), Some(11));
    assert_eq!(lines[0].get_string(VarID::UserListName).as_deref(), Some("B"));
}

#[test]
fn telegram_get_without_telegrams_reports_failure() {
    let mut server = setup_with(&[(2, "A")]);
    connect_and_login(&mut server, 10, 2, "A");
    universe::telegram::telegram_get(&mut server, 10, &AWPacket::new(PacketType::TelegramDeliver));
    assert_eq!(
        last_rc_of_type(&server, 10, PacketType::TelegramDeliver),
        Some(ReasonCode::UnableToGetTelegram)
    );
}

#[test]
fn telegram_to_unknown_citizen() {
    let mut server = setup_with(&[(2, "A")]);
    connect_and_login(&mut server, 10, 2, "A");
    let mut send = AWPacket::new(PacketType::TelegramSend);
    send.add_string(VarID::TelegramTo, "Nobody".to_string());
    send.add_string(VarID::TelegramMessage, "hi".to_string());
    universe::telegram::telegram_send(&mut server, 10, &send);
    assert_eq!(
        last_rc_of_type(&server, 10, PacketType::TelegramSend),
        Some(ReasonCode::NoSuchCitizen)
    );
}

#[test]
fn citizen_name_lookup_preserves_stored_casing() {
    let server = setup_with(&[(2, "MixedCase")]);
    match server.database.citizen_by_name("mixedcase") {
        DatabaseResult::Success(Some(c)) => assert_eq!(c.name, "MixedCase"),
        _ => panic!("case-insensitive lookup failed"),
    }
}

#[test]
fn default_configuration_values() {
    let c = <universe::config::Config as Default>::default();
    assert_eq!(c.universe.ip, 0x7f000001);
    assert_eq!(c.universe.port, 6670);
    assert_eq!(c.mysql.hostname, "127.0.0.1");
    assert_eq!(c.mysql.port, 3306);
    assert_eq!(c.mysql.database, "aworld_universe");
}

#[test]
fn citizen_number_iteration() {
    let server = setup_with(&[(2, "A"), (5, "B"), (9, "C")]);
    match server.database.citizen_prev_by_number(5) {
        DatabaseResult::Success(Some(c)) => assert_eq!(c.id, 2),
        _ => panic!("previous citizen missing"),
    }
    match server.database.citizen_next_by_number(5) {
        DatabaseResult::Success(Some(c)) => assert_eq!(c.id, 9),
        _ => panic!("next citizen missing"),
    }
    assert!(matches!(
        server.database.citizen_prev_by_number(2),
        DatabaseResult::Success(None)
    ));
    assert!(matches!(
        server.database.citizen_next_by_number(9),
        DatabaseResult::Success(None)
    ));
}

#[test]
fn ejection_delete_clears_row() {
    let mut server = setup_with(&[]);
    let _ = server.database.ejection_set(42, 100, 1, "gone soon");
    assert!(matches!(
        server.database.ejection_by_address(42),
        DatabaseResult::Success(Some(_))
    ));
    let _ = server.database.ejection_delete(42);
    assert!(matches!(
        server.database.ejection_by_address(42),
        DatabaseResult::Success(None)
    ));
}

#[test]
fn duplicate_citizen_ids_and_names_refused() {
    let mut server = setup_with(&[(2, "A")]);
    assert!(matches!(
        server.database.citizen_add(&citizen(2, "Other")),
        DatabaseResult::Success(None)
    ));
    assert!(matches!(
        server.database.citizen_add(&citizen(7, "a")),
        DatabaseResult::Success(None)
    ));
    assert!(matches!(
        server.database.citizen_add(&citizen(0, "Zero")),
        DatabaseResult::Success(None)
    ));
}

#[test]
fn dispatcher_routes_by_packet_type() {
    let mut server = setup_with(&[(2, "A"), (3, "B")]);
    connect_and_login(&mut server, 10, 2, "A");
    universe::dispatch::route_packet(&mut server, 10, &contact_add_packet("B", 0));
    assert_eq!(
        last_rc_of_type(&server, 10, PacketType::ContactAdd),
        Some(ReasonCode::Success)
    );
    // An unknown packet type is dropped without a response.
    let before = queue_of(&server, 10).len();
    universe::dispatch::route_packet(&mut server, 10, &AWPacket::new(PacketType::Unknown));
    assert_eq!(queue_of(&server, 10).len(), before);
}

#[test]
fn license_add_invalid_names_get_rule_codes() {
    // An unacceptable name is answered with the rule it breaks, also when
    // it contains blanks.
    let mut server = setup_with(&[(1, "Operator")]);
    connect_and_login(&mut server, 11, 1, "Operator");
    universe::license::license_add(&mut server, 11, &license_packet(" ab"));
    assert_eq!(
        last_rc_of_type(&server, 11, PacketType::LicenseChangeResult),
        Some(ReasonCode::NameContainsInvalidBlank)
    );
    universe::license::license_add(&mut server, 11, &license_packet("ab cd"));
    assert_eq!(
        last_rc_of_type(&server, 11, PacketType::LicenseChangeResult),
        Some(ReasonCode::NameContainsNonalphanumericChar)
    );
    universe::license::license_add(&mut server, 11, &license_packet("ab "));
    assert_eq!(
        last_rc_of_type(&server, 11, PacketType::LicenseChangeResult),
        Some(ReasonCode::NameEndsWithBlank)
    );
}

#[test]
fn confirm_without_options_is_a_deny() {
    // A confirmation that carries no options variable is a silently
    // accepted denial: no edge appears in either direction.
    let mut server = setup_with(&[(2, "A"), (3, "B")]);
    connect_and_login(&mut server, 10, 2, "A");
    connect_and_login(&mut server, 11, 3, "B");
    universe::contact::contact_add(&mut server, 10, &contact_add_packet("B", 0));
    let mut confirm = AWPacket::new(PacketType::ContactConfirm);
    confirm.add_uint(VarID::ContactListCitizenID, 2);
    universe::contact::contact_confirm(&mut server, 11, &confirm);
    assert_eq!(
        last_rc_of_type(&server, 11, PacketType::ContactConfirm),
        Some(ReasonCode::Success)
    );
    assert!(matches!(
        server.database.contact_get(3, 2),
        DatabaseResult::Success(None)
    ));
    // The requester's pending edge stays pending.
    match server.database.contact_get(2, 3) {
        DatabaseResult::Success(Some(c)) => {
            assert!(c.options.contains(FRIEND_REQUEST_BLOCKED))
        }
        _ => panic!("pending edge missing"),
    }
}

#[test]
fn merged_block_deletes_reverse_edge() {
    // The reverse-edge delete keys on the merged options: an edge that
    // already blocks outright keeps blocking under an untouched delta,
    // and the other side's edge is removed.
    let mut server = setup_with(&[(2, "A"), (3, "B")]);
    connect_and_login(&mut server, 10, 2, "A");
    let _ = server.database.contact_set(2, 3, ALL_BLOCKED | ALL_ALLOWED);
    let _ = server.database.contact_set(3, 2, 0);
    let mut change = AWPacket::new(PacketType::ContactChange);
    change.add_uint(VarID::ContactListCitizenID, 3);
    change.add_uint(VarID::ContactListOptions, 0);
    universe::contact::contact_change(&mut server, 10, &change);
    assert!(matches!(
        server.database.contact_get(3, 2),
        DatabaseResult::Success(None)
    ));
    match server.database.contact_get(2, 3) {
        DatabaseResult::Success(Some(c)) => assert!(c.options.contains(ALL_BLOCKED)),
        _ => panic!("own edge should remain"),
    }
}

#[test]
fn telegram_to_self_notifies_own_connection() {
    let mut server = setup_with(&[(2, "A")]);
    connect_and_login(&mut server, 10, 2, "A");
    let mut send = AWPacket::new(PacketType::TelegramSend);
    send.add_string(VarID::TelegramTo, "A".to_string());
    send.add_string(VarID::TelegramMessage, "note to self".to_string());
    universe::telegram::telegram_send(&mut server, 10, &send);
    let q = queue_of(&server, 10);
    assert!(q.len() >= 2);
    assert_eq!(q[q.len() - 2].packet_type, PacketType::TelegramNotify);
    assert_eq!(q[q.len() - 1].packet_type, PacketType::TelegramSend);
    assert_eq!(
        q[q.len() - 1].get_reason(VarID::ReasonCode),
        Some(ReasonCode::Success)
    );
}

#[test]
fn license_change_response_carries_fields() {
    let mut server = setup_with(&[(1, "Operator")]);
    connect_and_login(&mut server, 11, 1, "Operator");
    universe::license::license_add(&mut server, 11, &license_packet("World2"));
    let mut change = AWPacket::new(PacketType::LicenseChange);
    change.add_string(VarID::WorldName, "World2".to_string());
    change.add_string(VarID::WorldLicensePassword, "np2".to_string());
    change.add_string(VarID::WorldLicenseEmail, "n2@example.invalid".to_string());
    change.add_string(VarID::WorldLicenseComment, "nc2".to_string());
    change.add_uint(VarID::WorldLicenseExpiration, 5);
    change.add_uint(VarID::WorldLicenseHidden, 0);
    change.add_uint(VarID::WorldLicenseTourists, 1);
    change.add_uint(VarID::WorldLicenseUsers, 20);
    change.add_uint(VarID::WorldLicenseRange, 40);
    change.add_uint(VarID::WorldLicenseVoip, 0);
    change.add_uint(VarID::WorldLicensePlugins, 0);
    universe::license::license_change(&mut server, 11, &change);
    let resp = queue_of(&server, 11)
        .iter()
        .rev()
        .find(|p| p.packet_type == PacketType::LicenseResult)
        .expect("change response");
    assert_eq!(resp.get_reason(VarID::ReasonCode), Some(ReasonCode::Success));
    assert_eq!(resp.get_string(VarID::WorldName).as_deref(), Some("World2"));
    assert_eq!(
        resp.get_string(VarID::WorldLicensePassword).as_deref(),
        Some("np2")
    );
    assert_eq!(resp.get_uint(VarID::WorldLicenseUsers), Some(20));
}

#[test]
fn eject_prev_entry_handler() {
    let mut server = setup_with(&[(1, "Operator"), (2, "A")]);
    connect_and_login(&mut server, 11, 1, "Operator");
    connect_and_login(&mut server, 10, 2, "A");
    let _ = server.database.ejection_set(100, 9999, 1, "low");
    let mut ask = AWPacket::new(PacketType::EjectPrev);
    ask.add_uint(VarID::EjectionAddress, 200);
    // A non-administrator's ask is dropped without a response.
    let before = queue_of(&server, 10).len();
    universe::eject::eject_prev(&mut server, 10, &ask);
    assert_eq!(queue_of(&server, 10).len(), before);
    universe::eject::eject_prev(&mut server, 11, &ask);
    let found = queue_of(&server, 11)
        .iter()
        .rev()
        .find(|p| p.packet_type == PacketType::EjectResult)
        .expect("prev");
    assert_eq!(found.get_uint(VarID::EjectionAddress), Some(100));
    assert_eq!(found.get_string(VarID::EjectionComment).as_deref(), Some("low"));
}
