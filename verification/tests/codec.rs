//! Byte-exact checks of the wire codec: encoders, decoders, and the
//! validated tokens that guard what goes on the wire.

use dpmaster::game_server;
use dpmaster::master_server;
use dpmaster::parse;
use dpmaster::Challenge;
use dpmaster::GameName;
use dpmaster::GetInfo;
use dpmaster::GetServers;
use dpmaster::GetServersExt;
use dpmaster::GetServersExtFilter;
use dpmaster::GetServersExtResponse;
use dpmaster::GetServersFilter;
use dpmaster::GetServersResponse;
use dpmaster::GetStatus;
use dpmaster::HeartBeat;
use dpmaster::InfoResponse;
use dpmaster::ProtocolString;
use dpmaster::ProtocolVersion;
use dpmaster::SocketAddr;
use dpmaster::SocketAddrV4;
use dpmaster::StatusResponse;
use dpmaster::DatagramInfo;

const OOB: &[u8] = b"\xFF\xFF\xFF\xFF";

#[test]
fn challenge_rejects_forbidden_bytes() {
    assert!(Challenge::new(b"1234".to_vec()).is_ok());
    assert!(Challenge::new(b"a\\b".to_vec()).is_err());
    assert!(Challenge::new(b"a/b".to_vec()).is_err());
    assert!(Challenge::new(b"a;b".to_vec()).is_err());
    assert!(Challenge::new(b"a\"b".to_vec()).is_err());
    assert!(Challenge::new(b"a%b".to_vec()).is_err());
    assert!(Challenge::new(b"a b".to_vec()).is_err(), "space is not printable-range");
}

#[test]
fn game_name_rejects_whitespace() {
    assert!(GameName::new(b"Warfork".to_vec()).is_ok());
    assert!(GameName::new(b"War fork".to_vec()).is_err());
    assert!(GameName::new(b"War\tfork".to_vec()).is_err());
    assert!(GameName::new(b"War\nfork".to_vec()).is_err());
}

#[test]
fn protocol_version_wants_digits() {
    assert!(ProtocolVersion::new(b"26".to_vec()).is_ok());
    assert!(ProtocolVersion::new(b"2a".to_vec()).is_err());
    assert!(ProtocolVersion::new(b"".to_vec()).is_ok(), "no byte breaks the rule");
}

#[test]
fn protocol_string_rejects_newline() {
    assert!(ProtocolString::new(b"DarkPlaces".to_vec()).is_ok());
    assert!(ProtocolString::new(b"Dark\nPlaces".to_vec()).is_err());
}

#[test]
fn getinfo_encodes_exactly() {
    let msg = GetInfo::new(Challenge::new(b"A1b2".to_vec()).unwrap());
    let mut buf = Vec::new();
    msg.write_all_to(&mut buf);
    assert_eq!(buf, [OOB, b"getinfo A1b2"].concat());
}

#[test]
fn getstatus_encodes_exactly() {
    let msg = GetStatus::new(Challenge::new(b"xyz".to_vec()).unwrap());
    let mut buf = Vec::new();
    msg.write_all_to(&mut buf);
    assert_eq!(buf, [OOB, b"getstatus xyz"].concat());
}

#[test]
fn heartbeat_encodes_with_trailing_newline() {
    let msg = HeartBeat {
        protocol_string: ProtocolString::new(b"DarkPlaces".to_vec()).unwrap(),
    };
    let mut buf = Vec::new();
    msg.write_all_to(&mut buf);
    assert_eq!(buf, [OOB, b"heartbeat DarkPlaces\n"].concat());
}

#[test]
fn get_servers_encodes_name_version_and_filters() {
    let msg = GetServers {
        game_name: Some(GameName::new(b"Warfork".to_vec()).unwrap()),
        protocol_version: ProtocolVersion::new(b"26".to_vec()).unwrap(),
        filter: GetServersFilter {
            empty: true,
            full: true,
            gametype: Some(b"ffa".to_vec()),
        },
    };
    let mut buf = Vec::new();
    msg.write_all_to(&mut buf);
    assert_eq!(buf, [OOB, b"getservers Warfork 26 empty full ffa"].concat());
}

#[test]
fn get_servers_encodes_without_name() {
    let msg = GetServers {
        game_name: None,
        protocol_version: ProtocolVersion::new(b"68".to_vec()).unwrap(),
        filter: GetServersFilter::default(),
    };
    let mut buf = Vec::new();
    msg.write_all_to(&mut buf);
    assert_eq!(buf, [OOB, b"getservers 68"].concat());
}

#[test]
fn get_servers_ext_encodes_all_filters() {
    let msg = GetServersExt {
        game_name: GameName::new(b"Warfork".to_vec()).unwrap(),
        protocol_version: ProtocolVersion::new(b"26".to_vec()).unwrap(),
        filter: GetServersExtFilter {
            empty: true,
            full: false,
            gametype: Some(b"duel".to_vec()),
            ipv4: true,
            ipv6: true,
        },
    };
    let mut buf = Vec::new();
    msg.write_all_to(&mut buf);
    assert_eq!(buf, [OOB, b"getserversExt Warfork 26 empty duel ipv4 ipv6"].concat());
}

/// A hand-constructed decoder of the request grammar: strips the marker
/// and the command name, splits the rest at spaces, takes the trailing
/// filter words, and reads name and version from what is left.
fn decode_get_servers_request(bytes: &[u8]) -> Option<(Option<Vec<u8>>, Vec<u8>, bool, bool)> {
    let rest = bytes.strip_prefix(b"\xFF\xFF\xFF\xFFgetservers".as_slice())?;
    let mut tokens: Vec<&[u8]> = rest.split(|b| *b == b' ').skip(1).collect();
    let mut empty = false;
    let mut full = false;
    while let Some(last) = tokens.last() {
        if *last == b"full" && !full && !empty {
            full = true;
            tokens.pop();
        } else if *last == b"empty" && !empty {
            empty = true;
            tokens.pop();
        } else {
            break;
        }
    }
    match tokens.len() {
        1 => Some((None, tokens[0].to_vec(), empty, full)),
        2 => Some((Some(tokens[0].to_vec()), tokens[1].to_vec(), empty, full)),
        _ => None,
    }
}

#[test]
fn get_servers_round_trips_through_request_grammar() {
    let msg = GetServers {
        game_name: Some(GameName::new(b"Warfork".to_vec()).unwrap()),
        protocol_version: ProtocolVersion::new(b"26".to_vec()).unwrap(),
        filter: GetServersFilter {
            empty: true,
            full: false,
            gametype: None,
        },
    };
    let mut buf = Vec::new();
    msg.write_all_to(&mut buf);
    let (name, version, empty, full) = decode_get_servers_request(&buf).unwrap();
    assert_eq!(name.as_deref(), Some(b"Warfork".as_slice()));
    assert_eq!(version, b"26".to_vec());
    assert!(empty);
    assert!(!full);
}

#[test]
fn ipv4_address_encodes_to_seven_exact_bytes() {
    let addr = SocketAddrV4 {
        ip: u32::from_be_bytes([192, 0, 2, 1]),
        port: 27960,
    };
    let mut buf = Vec::new();
    addr.write_all_to(&mut buf);
    assert_eq!(buf, vec![0x5C, 0xC0, 0x00, 0x02, 0x01, 0x6D, 0x38]);
    let (back, consumed) = parse::socket_addr_v4(&buf, 0).unwrap();
    assert_eq!(back, addr);
    assert_eq!(consumed, 7);
}

#[test]
fn ipv6_address_round_trips_through_wire_form() {
    let addr = dpmaster::SocketAddrV6 {
        ip: u128::from_be_bytes([0x20, 0x01, 0x0d, 0xb8, 0, 0, 0, 0, 0, 0, 0, 0, 0, 0, 0, 0x42]),
        port: 27960,
    };
    let mut buf = Vec::new();
    addr.write_all_to(&mut buf);
    assert_eq!(buf[0], b'/');
    assert_eq!(buf.len(), 19);
    let (back, consumed) = parse::socket_addr_v6(&buf, 0).unwrap();
    assert_eq!(back, addr);
    assert_eq!(consumed, 19);
}

#[test]
fn decoders_reject_bytes_without_marker() {
    let body = b"getserversResponse\\\x01\x02\x03\x04\x6D\x38";
    assert!(GetServersResponse::parse(body).is_err());
    assert!(GetServersExtResponse::parse(body).is_err());
    assert!(InfoResponse::parse(b"infoResponse\n\\a\\b").is_err());
    assert!(StatusResponse::parse(b"statusResponse\n\\a\\b").is_err());
    assert!(master_server::parse_response(b"\xFF\xFF\xFF\xFEgetserversResponse").is_err());
    assert!(game_server::parse_response(b"\x00\xFF\xFF\xFFinfoResponse\n\\a\\b").is_err());
}

#[test]
fn getservers_response_decodes_addresses_and_eot() {
    let msg = [
        OOB,
        b"getserversResponse",
        b"\\\xC0\x00\x02\x01\x6D\x38",
        b"\\\x0A\x00\x00\x01\x1E\x62",
        b"\\EOT\0\0\0",
    ]
    .concat();
    let (resp, consumed) = GetServersResponse::parse(&msg).unwrap();
    assert_eq!(resp.addresses.len(), 2);
    assert_eq!(
        resp.addresses[0],
        SocketAddrV4 { ip: u32::from_be_bytes([192, 0, 2, 1]), port: 27960 }
    );
    assert_eq!(
        resp.addresses[1],
        SocketAddrV4 { ip: u32::from_be_bytes([10, 0, 0, 1]), port: 7778 }
    );
    assert!(resp.eot);
    assert_eq!(consumed, msg.len());
}

#[test]
fn getservers_response_without_sentinel_is_incomplete() {
    let msg = [OOB, b"getserversResponse", b"\\\xC0\x00\x02\x01\x6D\x38"].concat();
    let (resp, consumed) = GetServersResponse::parse(&msg).unwrap();
    assert_eq!(resp.addresses.len(), 1);
    assert!(!resp.eot);
    assert_eq!(consumed, msg.len());
}

#[test]
fn getservers_response_stops_at_first_sentinel() {
    let msg = [
        OOB,
        b"getserversResponse",
        b"\\\xC0\x00\x02\x01\x6D\x38",
        b"\\EOT\0\0\0",
        b"\\\x0A\x00\x00\x01\x1E\x62",
    ]
    .concat();
    let (resp, consumed) = GetServersResponse::parse(&msg).unwrap();
    assert_eq!(resp.addresses.len(), 1, "addresses after the sentinel are leftover");
    assert!(resp.eot);
    assert_eq!(consumed, msg.len() - 7);
}

#[test]
fn getservers_response_may_be_empty() {
    let msg = [OOB, b"getserversResponse"].concat();
    let (resp, consumed) = GetServersResponse::parse(&msg).unwrap();
    assert!(resp.addresses.is_empty());
    assert!(!resp.eot);
    assert_eq!(consumed, msg.len());
}

#[test]
fn getservers_ext_response_mixes_address_kinds() {
    let v6bytes: [u8; 16] = [0x20, 0x01, 0x0d, 0xb8, 0, 0, 0, 0, 0, 0, 0, 0, 0, 0, 0, 0x42];
    let msg = [
        OOB.to_vec(),
        b"getserversExtResponse".to_vec(),
        b"\\\xC0\x00\x02\x01\x6D\x38".to_vec(),
        [b"/".to_vec(), v6bytes.to_vec(), vec![0x6D, 0x38]].concat(),
        b"\\EOT\0\0\0".to_vec(),
    ]
    .concat();
    let (resp, consumed) = GetServersExtResponse::parse(&msg).unwrap();
    assert_eq!(resp.addresses.len(), 2);
    assert_eq!(
        resp.addresses[0],
        SocketAddr::V4(SocketAddrV4 { ip: u32::from_be_bytes([192, 0, 2, 1]), port: 27960 })
    );
    assert_eq!(
        resp.addresses[1],
        SocketAddr::V6(dpmaster::SocketAddrV6 { ip: u128::from_be_bytes(v6bytes), port: 27960 })
    );
    assert_eq!(resp.datagram_info, DatagramInfo::Eot);
    assert_eq!(consumed, msg.len());
}

#[test]
fn key_value_bytes_decode_to_two_entry_mapping() {
    let bytes = b"\\sv_hostname\\Test Server\\gametype\\ffa";
    let (pairs, consumed) = parse::key_value_map(bytes, 0).unwrap();
    assert_eq!(consumed, bytes.len());
    assert_eq!(pairs.len(), 2);
    let map = dpmaster::KeyValues::from_pairs(pairs);
    assert_eq!(map.len(), 2);
    assert_eq!(map.get(b"sv_hostname").map(|v| v.as_slice()), Some(b"Test Server".as_slice()));
    assert_eq!(map.get(b"gametype").map(|v| v.as_slice()), Some(b"ffa".as_slice()));
    assert_eq!(map.get(b"missing"), None);
}

#[test]
fn key_value_run_keeps_last_occurrence_of_a_key() {
    let bytes = b"\\a\\1\\a\\2";
    let (pairs, _) = parse::key_value_map(bytes, 0).unwrap();
    let map = dpmaster::KeyValues::from_pairs(pairs);
    assert_eq!(map.get(b"a").map(|v| v.as_slice()), Some(b"2".as_slice()));
}

#[test]
fn key_value_run_must_not_be_empty() {
    assert!(parse::key_value_map(b"", 0).is_none());
    assert!(parse::key_value_map(b"no-backslash", 0).is_none());
    assert!(parse::key_value_map(b"\\key-without-value", 0).is_none());
}

#[test]
fn key_value_value_may_be_empty() {
    let bytes = b"\\flag\\";
    let (pairs, consumed) = parse::key_value_map(bytes, 0).unwrap();
    assert_eq!(consumed, bytes.len());
    assert_eq!(pairs.len(), 1);
    assert_eq!(pairs[0].0, b"flag".to_vec());
    assert_eq!(pairs[0].1, Vec::<u8>::new());
}

#[test]
fn info_response_decodes_key_values() {
    let msg = [OOB, b"infoResponse\n", b"\\sv_hostname\\Test Server\\gametype\\ffa"].concat();
    let (resp, consumed) = InfoResponse::parse(&msg).unwrap();
    assert_eq!(consumed, msg.len());
    assert_eq!(resp.key_values.len(), 2);
    assert_eq!(
        resp.key_values.get(b"sv_hostname").map(|v| v.as_slice()),
        Some(b"Test Server".as_slice())
    );
}

#[test]
fn info_response_needs_at_least_one_pair() {
    let msg = [OOB, b"infoResponse\n"].concat();
    assert!(InfoResponse::parse(&msg).is_err());
}

#[test]
fn status_response_decodes_key_values_and_players() {
    let msg = [
        OOB,
        b"statusResponse\n",
        b"\\sv_hostname\\Test Server\\gametype\\ffa",
        b"\n",
        b"5 23 \"Alice\" 1\n-2 88 \"Bob\" 2\n",
    ]
    .concat();
    let (resp, consumed) = StatusResponse::parse(&msg).unwrap();
    assert_eq!(consumed, msg.len());
    assert_eq!(resp.key_values.len(), 2);
    assert_eq!(resp.player_infos.len(), 2);
    assert_eq!(resp.player_infos[0].frags, 5);
    assert_eq!(resp.player_infos[0].ping, 23);
    assert_eq!(resp.player_infos[0].name, b"Alice".to_vec());
    assert_eq!(resp.player_infos[0].team, 1);
    assert_eq!(resp.player_infos[1].frags, -2);
    assert_eq!(resp.player_infos[1].ping, 88);
    assert_eq!(resp.player_infos[1].name, b"Bob".to_vec());
    assert_eq!(resp.player_infos[1].team, 2);
}

#[test]
fn status_response_without_player_section_has_no_players() {
    let msg = [OOB, b"statusResponse\n", b"\\g_gametype\\ctf"].concat();
    let (resp, consumed) = StatusResponse::parse(&msg).unwrap();
    assert_eq!(consumed, msg.len());
    assert!(resp.player_infos.is_empty());
}

#[test]
fn status_response_with_broken_player_section_fails() {
    let msg = [OOB, b"statusResponse\n", b"\\g_gametype\\ctf", b"\n", b"not a player"].concat();
    assert!(StatusResponse::parse(&msg).is_err());
}

#[test]
fn status_response_rejects_player_frags_out_of_range() {
    let msg = [
        OOB,
        b"statusResponse\n",
        b"\\g_gametype\\ctf",
        b"\n",
        b"999999999999 1 \"A\" 1\n",
    ]
    .concat();
    assert!(StatusResponse::parse(&msg).is_err());
}

#[test]
fn status_response_accepts_extreme_player_values() {
    let msg = [
        OOB,
        b"statusResponse\n",
        b"\\g_gametype\\ctf",
        b"\n",
        b"-2147483648 2147483647 \"edge\" 0\n",
    ]
    .concat();
    let (resp, _) = StatusResponse::parse(&msg).unwrap();
    assert_eq!(resp.player_infos[0].frags, i32::MIN);
    assert_eq!(resp.player_infos[0].ping, i32::MAX);
}

#[test]
fn key_value_value_stops_at_line_feed() {
    let bytes = b"\\key\\value\nrest";
    let (pairs, consumed) = parse::key_value_map(bytes, 0).unwrap();
    assert_eq!(pairs.len(), 1);
    assert_eq!(pairs[0].1, b"value".to_vec());
    assert_eq!(consumed, bytes.len() - b"\nrest".len());
}

#[test]
fn player_name_keeps_colour_markers() {
    let msg = [
        OOB,
        b"statusResponse\n",
        b"\\g_gametype\\ctf",
        b"\n",
        b"1 2 \"^1Alice^7\" 3\n",
    ]
    .concat();
    let (resp, _) = StatusResponse::parse(&msg).unwrap();
    assert_eq!(resp.player_infos[0].name, b"^1Alice^7".to_vec());
}

#[test]
fn player_numbers_accept_leading_zeros() {
    let msg = [
        OOB,
        b"statusResponse\n",
        b"\\g_gametype\\ctf",
        b"\n",
        b"007 -0 \"z\" 000000000001\n",
    ]
    .concat();
    let (resp, _) = StatusResponse::parse(&msg).unwrap();
    assert_eq!(resp.player_infos[0].frags, 7);
    assert_eq!(resp.player_infos[0].ping, 0);
    assert_eq!(resp.player_infos[0].team, 1);
}

#[test]
fn info_response_reports_leftover_after_run() {
    let run = b"\\a\\b";
    let msg = [OOB, b"infoResponse\n", run, b"\nleftover"].concat();
    let (resp, consumed) = InfoResponse::parse(&msg).unwrap();
    assert_eq!(resp.key_values.len(), 1);
    assert_eq!(consumed, msg.len() - b"\nleftover".len());
}

#[test]
fn master_parse_response_dispatches_by_literal() {
    let v4 = [OOB, b"getserversResponse", b"\\\xC0\x00\x02\x01\x6D\x38"].concat();
    match master_server::parse_response(&v4).unwrap() {
        (master_server::MasterServerResponse::Servers(addrs), consumed) => {
            assert_eq!(addrs.len(), 1);
            assert_eq!(consumed, v4.len());
        }
        _ => panic!("expected the plain response kind"),
    }
    let ext = [OOB, b"getserversExtResponse", b"\\EOT\0\0\0"].concat();
    match master_server::parse_response(&ext).unwrap() {
        (master_server::MasterServerResponse::ServersExt(addrs), _) => {
            assert!(addrs.is_empty());
        }
        _ => panic!("expected the extended response kind"),
    }
    assert!(master_server::parse_response(b"\xFF\xFF\xFF\xFFnonsense").is_err());
}

#[test]
fn master_get_servers_writes_exact_request() {
    let mut buf = Vec::new();
    master_server::get_servers(&mut buf, b"Warfork", b"26", true, true);
    assert_eq!(buf, [OOB, b"getservers Warfork 26 empty full"].concat());
    let mut buf2 = Vec::new();
    master_server::get_servers_ext(&mut buf2, b"Warfork", b"26", false, true);
    assert_eq!(buf2, [OOB, b"getserversExt Warfork 26 empty"].concat());
    let mut buf3 = Vec::new();
    master_server::get_servers_ext(&mut buf3, b"Warfork", b"26", true, false);
    assert_eq!(buf3, [OOB, b"getserversExt Warfork 26 full"].concat());
}

#[test]
fn game_get_info_validates_challenge_and_writes() {
    let mut buf = Vec::new();
    assert!(game_server::get_info(&mut buf, b"ab\\cd").is_err());
    assert!(game_server::get_info(&mut buf, b"ab cd").is_err(), "space breaks the framing");
    assert!(game_server::get_info(&mut buf, b"ab\x01cd").is_err(), "control byte");
    assert!(game_server::get_info(&mut buf, b"ab\xC3\xA9").is_err(), "non-ASCII byte");
    assert!(buf.is_empty(), "a rejected call writes nothing");
    game_server::get_info(&mut buf, b"abcd").unwrap();
    assert_eq!(buf, [OOB, b"getinfo abcd"].concat());
}

#[test]
fn game_parse_response_decodes_info() {
    let msg = [OOB, b"infoResponse\n", b"\\hostname\\x"].concat();
    match game_server::parse_response(&msg).unwrap() {
        (game_server::GameServerResponse::Info(kv), consumed) => {
            assert_eq!(consumed, msg.len());
            assert_eq!(kv.get(b"hostname").map(|v| v.as_slice()), Some(b"x".as_slice()));
        }
    }
}
