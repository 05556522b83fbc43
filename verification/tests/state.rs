use jkmp_server::address::PeerAddr;
use jkmp_server::client::Client;
use jkmp_server::math::vector2::get_y_level;
use jkmp_server::math::Vector2;
use jkmp_server::messages::Message;
use jkmp_server::state::{MatchmakingOptions, State};
use tokio::sync::mpsc::{unbounded_channel, UnboundedReceiver};

fn addr(n: u16) -> PeerAddr {
    PeerAddr::V4 { ip: 0x7f00_0001, port: n }
}

fn position(x: f32, y: f32) -> Vector2 {
    Vector2 { x: x.to_bits(), y: y.to_bits() }
}

fn options(password: Option<&str>, level: &str) -> MatchmakingOptions {
    MatchmakingOptions::new(password.map(|p| p.to_string()), level.to_string())
}

fn client(id: u64, y: f32) -> (Client, UnboundedReceiver<Message>) {
    let (tx, rx) = unbounded_channel::<Message>();
    (Client::new(tx, id, format!("Gamer ID #{}", id), position(0.0, y)), rx)
}

fn ids(clients: &[&Client]) -> Vec<u64> {
    clients.iter().map(|c| c.steam_id).collect()
}

/// The level as the floating-point unit computes it.
fn reference_level(y: f32) -> i32 {
    ((-y.round()) as i32).div_euclid(360)
}

#[test]
fn y_level_of_plain_values() {
    assert_eq!(get_y_level(0.0f32.to_bits()), 0);
    assert_eq!(get_y_level((-0.0f32).to_bits()), 0);
    assert_eq!(get_y_level((-359.0f32).to_bits()), 0);
    assert_eq!(get_y_level((-359.4f32).to_bits()), 0);
    assert_eq!(get_y_level((-359.5f32).to_bits()), 1);
    assert_eq!(get_y_level((-360.0f32).to_bits()), 1);
    assert_eq!(get_y_level((-720.0f32).to_bits()), 2);
    assert_eq!(get_y_level((-1079.0f32).to_bits()), 2);
    assert_eq!(get_y_level((-1440.0f32).to_bits()), 4);
    assert_eq!(get_y_level((-2160.0f32).to_bits()), 6);
}

#[test]
fn y_level_rounds_down_below_the_ground() {
    assert_eq!(get_y_level(0.4f32.to_bits()), 0);
    assert_eq!(get_y_level(0.5f32.to_bits()), -1);
    assert_eq!(get_y_level(1.0f32.to_bits()), -1);
    assert_eq!(get_y_level(100.0f32.to_bits()), -1);
    assert_eq!(get_y_level(360.0f32.to_bits()), -1);
    assert_eq!(get_y_level(360.5f32.to_bits()), -2);
    assert_eq!(get_y_level(361.0f32.to_bits()), -2);
    assert_eq!(get_y_level(720.0f32.to_bits()), -2);
}

#[test]
fn y_level_of_what_is_no_position() {
    assert_eq!(get_y_level(f32::NAN.to_bits()), 0);
    assert_eq!(get_y_level(0x7fc0_0001), 0);
    assert_eq!(get_y_level(0xffc0_0000), 0);
    assert_eq!(get_y_level(f32::INFINITY.to_bits()), i32::MIN.div_euclid(360));
    assert_eq!(get_y_level(f32::NEG_INFINITY.to_bits()), i32::MAX / 360);
    assert_eq!(get_y_level(f32::MAX.to_bits()), -5965233);
    assert_eq!(get_y_level(f32::MIN.to_bits()), 5965232);
    assert_eq!(get_y_level(2147483648.0f32.to_bits()), -5965233);
    assert_eq!(get_y_level((-2147483648.0f32).to_bits()), 5965232);
    assert_eq!(get_y_level(f32::MIN_POSITIVE.to_bits()), 0);
    assert_eq!(get_y_level(1u32), 0);
}

#[test]
fn y_level_agrees_with_floating_point() {
    let mut samples: Vec<f32> = vec![
        0.0, -0.0, 0.25, 0.49999997, 0.5, 0.50000006, 1.5, 2.5, -0.5, -1.5, -2.5, 359.5, -359.5,
        8388607.5, 8388608.0, 16777215.0, 16777216.0, 2147483520.0, 2147483648.0, -2147483520.0,
        -2147483648.0, 4294967296.0, 1e30, -1e30, f32::MIN_POSITIVE, f32::EPSILON, f32::MAX,
        f32::MIN, f32::INFINITY, f32::NEG_INFINITY, f32::NAN,
    ];
    let mut k: i32 = -4000;
    while k <= 4000 {
        samples.push(k as f32 * 0.5);
        samples.push(k as f32 * 90.25);
        k += 1;
    }
    let mut seed: u32 = 0x1234_5678;
    for _ in 0..200000 {
        seed = seed.wrapping_mul(1664525).wrapping_add(1013904223);
        samples.push(f32::from_bits(seed));
    }
    for exponent in 0u32..=255 {
        for fraction in [0u32, 1, 0x20_0000, 0x3f_ffff, 0x40_0000, 0x40_0001, 0x7f_ffff] {
            samples.push(f32::from_bits((exponent << 23) | fraction));
            samples.push(f32::from_bits(0x8000_0000 | (exponent << 23) | fraction));
        }
    }
    for y in samples {
        assert_eq!(get_y_level(y.to_bits()), reference_level(y), "y = {:?}", y);
        assert_eq!(position(0.0, y).y_level(), reference_level(y));
    }
}

#[test]
fn default_state_is_empty() {
    let state = State::default();
    assert_eq!(state.get_clients_iter().len(), 0);
    assert_eq!(state.group_len(&options(None, "l")), 0);
}

#[test]
fn new_state_is_empty() {
    let state = State::new();
    assert_eq!(state.get_clients_iter().len(), 0);
    assert!(state.get_client(&addr(1)).is_none());
    assert_eq!(state.group_len(&options(None, "l")), 0);
}

#[test]
fn options_are_equal_when_both_fields_are() {
    assert!(options(None, "l").same_as(&options(None, "l")));
    assert!(options(Some("p"), "l").same_as(&options(Some("p"), "l")));
    assert!(!options(Some("p"), "l").same_as(&options(Some("q"), "l")));
    assert!(!options(Some("p"), "l").same_as(&options(Some("p"), "m")));
    assert!(!options(None, "l").same_as(&options(Some(""), "l")));
    assert_eq!(options(Some("p"), "l"), options(Some("p"), "l").clone());
    let made = MatchmakingOptions::new(Some("pw".to_string()), "level1".to_string());
    assert_eq!(made.password, Some("pw".to_string()));
    assert_eq!(made.level_name, "level1");
}

#[test]
fn add_client_indexes_the_address() {
    let mut state = State::new();
    let (a, _rx) = client(1, 0.0);
    assert!(state.add_client(&addr(1), a, options(None, "l")).is_none());
    assert_eq!(state.get_clients_iter().len(), 1);
    assert_eq!(state.get_client(&addr(1)).unwrap().steam_id, 1);
    assert!(state.get_matchmaking_options(&addr(1)).same_as(&options(None, "l")));
    assert_eq!(ids(&state.get_clients_in_group(&options(None, "l"))), vec![1]);
}

#[test]
fn add_client_twice_replaces_the_client_and_sets_the_new_options() {
    let mut state = State::new();
    let (a, _rx_a) = client(1, 0.0);
    let (b, _rx_b) = client(2, 0.0);
    let (c, _rx_c) = client(3, 0.0);
    state.add_client(&addr(1), a, options(None, "l"));
    state.add_client(&addr(2), c, options(None, "l"));
    let previous = state.add_client(&addr(1), b, options(Some("p"), "m"));
    assert_eq!(previous.unwrap().steam_id, 1);
    assert_eq!(state.get_clients_iter().len(), 2);
    assert_eq!(state.get_client(&addr(1)).unwrap().steam_id, 2);
    assert!(state.get_matchmaking_options(&addr(1)).same_as(&options(Some("p"), "m")));
    assert_eq!(ids(&state.get_clients_in_group(&options(None, "l"))), vec![3]);
    assert_eq!(ids(&state.get_clients_in_group(&options(Some("p"), "m"))), vec![2]);
    let walked: Vec<u64> = state.get_clients_iter().iter().map(|(_, c)| c.steam_id).collect();
    assert_eq!(walked, vec![2, 3]);
}

#[test]
fn add_client_twice_under_the_same_options_keeps_the_place_in_the_group() {
    let mut state = State::new();
    for n in [1u16, 2, 3] {
        let (c, _rx) = client(n as u64, 0.0);
        state.add_client(&addr(n), c, options(None, "l"));
    }
    let (again, _rx) = client(9, 0.0);
    assert_eq!(state.add_client(&addr(1), again, options(None, "l")).unwrap().steam_id, 1);
    assert_eq!(ids(&state.get_clients_in_group(&options(None, "l"))), vec![9, 2, 3]);
    assert_eq!(state.get_clients_iter().len(), 3);
}

#[test]
fn add_client_twice_empties_the_group_that_is_left() {
    let mut state = State::new();
    let (a, _rx_a) = client(1, 0.0);
    let (b, _rx_b) = client(2, 0.0);
    state.add_client(&addr(1), a, options(None, "l"));
    state.add_client(&addr(1), b, options(Some("p"), "l"));
    assert_eq!(state.group_len(&options(None, "l")), 0);
    assert_eq!(state.group_len(&options(Some("p"), "l")), 1);
    assert_eq!(state.get_clients_iter().len(), 1);
}

#[test]
fn same_account_may_connect_twice() {
    let mut state = State::new();
    let (a, _rx_a) = client(7, 0.0);
    let (b, _rx_b) = client(7, 0.0);
    state.add_client(&addr(1), a, options(None, "l"));
    state.add_client(&addr(2), b, options(None, "l"));
    assert_eq!(state.get_clients_iter().len(), 2);
    assert_eq!(ids(&state.get_clients_in_group(&options(None, "l"))), vec![7, 7]);
}

#[test]
fn group_members_keep_the_order_in_which_they_joined() {
    let mut state = State::new();
    for n in [3u16, 1, 2] {
        let (c, _rx) = client(n as u64, 0.0);
        state.add_client(&addr(n), c, options(None, "l"));
    }
    assert_eq!(ids(&state.get_clients_in_group(&options(None, "l"))), vec![3, 1, 2]);
    state.set_matchmaking_options(&addr(3), Some(options(Some("p"), "l")));
    state.set_matchmaking_options(&addr(3), Some(options(None, "l")));
    assert_eq!(ids(&state.get_clients_in_group(&options(None, "l"))), vec![1, 2, 3]);
    let walked: Vec<u64> = state.get_clients_iter().iter().map(|(_, c)| c.steam_id).collect();
    assert_eq!(walked, vec![3, 1, 2]);
}

#[test]
fn set_matchmaking_options_moves_between_groups() {
    let mut state = State::new();
    let (a, _rx_a) = client(1, 0.0);
    let (b, _rx_b) = client(2, 0.0);
    state.add_client(&addr(1), a, options(None, "l"));
    state.add_client(&addr(2), b, options(None, "l"));
    state.set_matchmaking_options(&addr(1), Some(options(Some("p"), "l")));
    assert_eq!(ids(&state.get_clients_in_group(&options(None, "l"))), vec![2]);
    assert_eq!(ids(&state.get_clients_in_group(&options(Some("p"), "l"))), vec![1]);
    assert!(state.get_matchmaking_options(&addr(1)).same_as(&options(Some("p"), "l")));
    state.set_matchmaking_options(&addr(2), Some(options(Some("p"), "l")));
    assert_eq!(state.group_len(&options(None, "l")), 0);
    assert_eq!(ids(&state.get_clients_in_group(&options(Some("p"), "l"))), vec![1, 2]);
}

#[test]
fn set_matchmaking_options_to_the_same_changes_nothing() {
    let mut state = State::new();
    for n in [1u16, 2, 3] {
        let (c, _rx) = client(n as u64, 0.0);
        state.add_client(&addr(n), c, options(None, "l"));
    }
    state.set_matchmaking_options(&addr(1), Some(options(None, "l")));
    assert_eq!(ids(&state.get_clients_in_group(&options(None, "l"))), vec![1, 2, 3]);
    state.set_matchmaking_options(&addr(9), None);
    assert_eq!(state.get_clients_iter().len(), 3);
    assert_eq!(state.group_len(&options(None, "l")), 3);
}

#[test]
fn group_cleanup() {
    let mut state = State::new();
    let (a, _rx_a) = client(1, 0.0);
    let (b, _rx_b) = client(2, 0.0);
    state.add_client(&addr(1), a, options(None, "l"));
    state.add_client(&addr(2), b, options(None, "l"));
    assert_eq!(state.remove_client(&addr(1)).unwrap().steam_id, 1);
    assert_eq!(state.group_len(&options(None, "l")), 1);
    assert_eq!(ids(&state.get_clients_in_group(&options(None, "l"))), vec![2]);
    assert_eq!(state.remove_client(&addr(2)).unwrap().steam_id, 2);
    assert_eq!(state.group_len(&options(None, "l")), 0);
    assert_eq!(state.get_clients_iter().len(), 0);
    assert!(state.remove_client(&addr(2)).is_none());
}

#[test]
fn counts_agree_after_every_step() {
    let mut state = State::new();
    let groups = [options(None, "a"), options(Some("p"), "a"), options(None, "b")];
    let check = |state: &State, connected: &[u16]| {
        assert_eq!(state.get_clients_iter().len(), connected.len());
        let total: usize = groups.iter().map(|g| state.group_len(g)).sum();
        assert_eq!(total, connected.len());
        for n in connected {
            let own = state.get_matchmaking_options(&addr(*n));
            let members = state.get_clients_in_group(own);
            assert!(!members.is_empty());
            assert_eq!(members.iter().filter(|c| c.steam_id == *n as u64).count(), 1);
            let listed = groups.iter().filter(|g| {
                state.group_len(g) > 0
                    && state.get_clients_in_group(g).iter().any(|c| c.steam_id == *n as u64)
            });
            assert_eq!(listed.count(), 1);
        }
    };
    let mut connected: Vec<u16> = Vec::new();
    for n in 1u16..=9 {
        let (c, _rx) = client(n as u64, 0.0);
        state.add_client(&addr(n), c, groups[(n % 3) as usize].clone());
        connected.push(n);
        check(&state, &connected);
    }
    for n in [2u16, 5, 8] {
        state.set_matchmaking_options(&addr(n), Some(groups[0].clone()));
        check(&state, &connected);
    }
    for n in [1u16, 9, 5, 4, 2, 3, 8, 7, 6] {
        state.remove_client(&addr(n));
        connected.retain(|m| *m != n);
        check(&state, &connected);
    }
    for g in &groups {
        assert_eq!(state.group_len(g), 0);
    }
}

#[test]
fn get_client_mut_changes_the_client_in_place() {
    let mut state = State::new();
    let (a, _rx) = client(1, 0.0);
    state.add_client(&addr(1), a, options(None, "l"));
    state.get_client_mut(&addr(1)).unwrap().position = position(3.0, -720.0);
    assert_eq!(state.get_client(&addr(1)).unwrap().position, position(3.0, -720.0));
    assert!(state.get_client_mut(&addr(2)).is_none());
    assert_eq!(state.group_len(&options(None, "l")), 1);
}

#[test]
fn nearby_clients_are_within_three_levels() {
    let mut state = State::new();
    let heights = [0.0f32, -360.0, -1079.0, -1080.0, -1440.0, -1800.0, 360.0, 1080.0, 1081.0];
    for (i, y) in heights.iter().enumerate() {
        let (c, _rx) = client(i as u64, *y);
        state.add_client(&addr(i as u16), c, options(None, "l"));
    }
    // levels: 0, 1, 2, 3, 4, 5, -1, -3, -4
    let near_ground = state.get_nearby_clients(&position(0.0, 0.0), &options(None, "l"));
    assert_eq!(ids(&near_ground), vec![0, 1, 2, 3, 6, 7]);
    let near_top = state.get_nearby_clients(&position(0.0, -1800.0), &options(None, "l"));
    assert_eq!(ids(&near_top), vec![2, 3, 4, 5]);
    let near_bottom = state.get_nearby_clients(&position(0.0, 1081.0), &options(None, "l"));
    assert_eq!(ids(&near_bottom), vec![6, 7, 8]);
}

#[test]
fn nearby_clients_do_not_cross_groups() {
    let mut state = State::new();
    let (a, _rx_a) = client(1, 0.0);
    let (b, _rx_b) = client(2, 0.0);
    state.add_client(&addr(1), a, options(Some("p"), "l"));
    state.add_client(&addr(2), b, options(Some("q"), "l"));
    assert_eq!(ids(&state.get_nearby_clients(&position(0.0, 0.0), &options(Some("p"), "l"))), vec![1]);
}

#[test]
fn nearness_is_mutual() {
    let mut state = State::new();
    let heights = [0.0f32, -500.0, -1000.0, -1500.0, -2000.0, 700.0, 1500.0];
    for (i, y) in heights.iter().enumerate() {
        let (c, _rx) = client(i as u64, *y);
        state.add_client(&addr(i as u16), c, options(None, "l"));
    }
    for (a, ya) in heights.iter().enumerate() {
        for (b, yb) in heights.iter().enumerate() {
            let near_a = ids(&state.get_nearby_clients(&position(0.0, *ya), &options(None, "l")));
            let near_b = ids(&state.get_nearby_clients(&position(0.0, *yb), &options(None, "l")));
            assert_eq!(near_a.contains(&(b as u64)), near_b.contains(&(a as u64)));
        }
    }
}

#[test]
fn addresses_of_both_families_are_keys() {
    let mut state = State::new();
    let v4 = PeerAddr::V4 { ip: 1, port: 80 };
    let v6 = PeerAddr::V6 { ip: 1, port: 80, flowinfo: 0, scope_id: 0 };
    let scoped = PeerAddr::V6 { ip: 1, port: 80, flowinfo: 0, scope_id: 3 };
    for (i, a) in [v4, v6, scoped].iter().enumerate() {
        let (c, _rx) = client(i as u64, 0.0);
        assert!(state.add_client(a, c, options(None, "l")).is_none());
    }
    assert_eq!(state.get_clients_iter().len(), 3);
    assert_eq!(state.get_client(&v6).unwrap().steam_id, 1);
    assert_eq!(state.get_client(&scoped).unwrap().steam_id, 2);
}

#[test]
fn client_send_reaches_the_mailbox() {
    let (c, mut rx) = client(1, 0.0);
    let message = Message::ServerStatusUpdate(jkmp_server::messages::ServerStatusUpdate {
        total_players: 3,
        group_players: 2,
    });
    assert!(c.send(message.clone()).is_ok());
    assert_eq!(rx.try_recv().unwrap(), message);
    drop(rx);
    assert!(c.send(message).is_err());
}
