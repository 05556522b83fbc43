use jkmp_server::steam::{
    read_ticket_answer, ticket_query, SteamError, TicketError, TicketParams, UserSteamId, APP_ID,
};
use jkmp_server::util::string::{decimal, truncate};

#[test]
fn truncate_counts_characters() {
    assert_eq!(truncate("hello", 3), "hel");
    assert_eq!(truncate("hello", 5), "hello");
    assert_eq!(truncate("hello", 6), "hello");
    assert_eq!(truncate("hello", 0), "");
    assert_eq!(truncate("", 3), "");
    assert_eq!(truncate("h\u{e9}llo", 2), "h\u{e9}");
    assert_eq!(truncate("\u{1f600}\u{1f601}\u{1f602}", 2), "\u{1f600}\u{1f601}");
}

#[test]
fn decimal_writes_numbers_without_leading_zeros() {
    assert_eq!(decimal(0), "0");
    assert_eq!(decimal(7), "7");
    assert_eq!(decimal(10), "10");
    assert_eq!(decimal(1061090), "1061090");
    assert_eq!(decimal(u64::MAX), "18446744073709551615");
    for n in [9u64, 99, 100, 101, 12345678901234567] {
        assert_eq!(decimal(n), n.to_string());
    }
}

#[test]
fn user_steam_id_holds_both_ids() {
    let ids = UserSteamId::new(76561198000000001, 76561198000000002);
    assert_eq!(ids.steam_id, 76561198000000001);
    assert_eq!(ids.owner_steam_id, 76561198000000002);
    assert_eq!(
        ids.description(),
        "(SteamId: 76561198000000001, OwnerId: 76561198000000002)"
    );
}

#[test]
fn ticket_query_spells_the_ticket_in_hex() {
    let query = ticket_query("SECRET-REDACTED", &[0x00, 0x01, 0x0f, 0x10, 0xab, 0xff]);
    assert_eq!(query.key, "SECRET-REDACTED");
    assert_eq!(query.appid, "1061090");
    assert_eq!(APP_ID, 1061090);
    assert_eq!(query.ticket, "00010f10abff");
    assert_eq!(ticket_query("k", b"Hello world!").ticket, "48656c6c6f20776f726c6421");
    assert_eq!(ticket_query("k", &[]).ticket, "");
}

fn params(steam_id: &str, owner: &str) -> Option<TicketParams> {
    Some(TicketParams { steam_id: steam_id.to_string(), owner_steam_id: owner.to_string() })
}

#[test]
fn ticket_answer_gives_the_ids() {
    assert_eq!(
        read_ticket_answer(200, params("76561198000000001", "76561198000000002"), None),
        Ok(UserSteamId::new(76561198000000001, 76561198000000002))
    );
    assert_eq!(read_ticket_answer(200, params("+7", "007"), None), Ok(UserSteamId::new(7, 7)));
    assert_eq!(
        read_ticket_answer(200, params("18446744073709551615", "0"), None),
        Ok(UserSteamId::new(u64::MAX, 0))
    );
    let error = Some(TicketError { error_code: 3, error_desc: "ignored".to_string() });
    assert_eq!(read_ticket_answer(200, params("1", "2"), error), Ok(UserSteamId::new(1, 2)));
}

#[test]
fn ticket_answer_errors() {
    assert_eq!(
        read_ticket_answer(403, params("1", "2"), None),
        Err(SteamError::UnexpectedStatus(403))
    );
    assert_eq!(read_ticket_answer(200, params("x", "2"), None), Err(SteamError::InvalidId));
    assert_eq!(read_ticket_answer(200, params("1", ""), None), Err(SteamError::InvalidId));
    assert_eq!(read_ticket_answer(200, params("-1", "2"), None), Err(SteamError::InvalidId));
    assert_eq!(read_ticket_answer(200, params("+", "2"), None), Err(SteamError::InvalidId));
    assert_eq!(read_ticket_answer(200, params(" 1", "2"), None), Err(SteamError::InvalidId));
    assert_eq!(read_ticket_answer(200, params("1_0", "2"), None), Err(SteamError::InvalidId));
    assert_eq!(read_ticket_answer(200, params("\u{661}", "2"), None), Err(SteamError::InvalidId));
    assert_eq!(
        read_ticket_answer(200, params("18446744073709551616", "2"), None),
        Err(SteamError::InvalidId)
    );
    assert_eq!(
        read_ticket_answer(
            200,
            None,
            Some(TicketError { error_code: 101, error_desc: "Invalid ticket".to_string() })
        ),
        Err(SteamError::Refused { error_code: 101, error_desc: "Invalid ticket".to_string() })
    );
    assert_eq!(read_ticket_answer(200, None, None), Err(SteamError::Empty));
}
