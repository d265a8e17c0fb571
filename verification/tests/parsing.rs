//! Tests of the block framer and the status, protocol and route parsers.

use lightwatcher::bird::{BirdStatus, ExtCommunity, LargeCommunity, Protocol};
use lightwatcher::framer::{split_blocks, split_group, Follow, Marker};
use lightwatcher::parsers::datetime;
use lightwatcher::parsers::datetime::Date;
use lightwatcher::parsers::protocols::{
    parse_bgp_state, parse_change_stats_fields, parse_change_stats_values, parse_protocol_header,
    parse_protocol_meta, State,
};
use lightwatcher::bird::RoutesCount;
use lightwatcher::parsers::routes;
use lightwatcher::parsers::routes::{
    parse_ext_communities, parse_large_communities, parse_prefix_group, parse_route_meta,
    route_header,
};

fn today() -> Date {
    Date { year: 2024, month: 1, day: 1 }
}

fn chars(s: &str) -> Vec<char> {
    s.chars().collect()
}

fn block(lines: &[&str]) -> Vec<String> {
    lines.iter().map(|l| l.to_string()).collect()
}

#[test]
fn test_block_iterator() {
    let input = "1003-line1\nline2\n\n1003-line3\n\nline4\n9009-line5\n";
    let lines: Vec<String> = input.lines().map(|l| l.to_string()).collect();
    let start = Marker::new("1003-", Follow::Anything);
    let blocks = split_blocks(&lines, &start, None);

    assert_eq!(blocks[0], vec!["1003-line1", "line2", ""]);
    assert_eq!(blocks[1], vec!["1003-line3", "", "line4", "9009-line5"]);
    assert_eq!(blocks.len(), 2);
}

#[test]
fn test_block_group_iterator() {
    let b = block(&["1003-line1", "line2", "", "1003-line3", "", "line4", "9009-line5"]);
    let start = Marker::new("1003-", Follow::Anything);
    let groups = split_group(&b, &start);

    assert_eq!(groups[0], vec!["1003-line1", "line2", ""]);
    assert_eq!(groups[1], vec!["1003-line3", "", "line4", "9009-line5"]);
    assert_eq!(groups.len(), 2);
}

#[test]
fn framer_stops_at_end_of_reply() {
    let lines = block(&["0000"]);
    let start = Marker::new("1007-", Follow::NonSpace);
    let blocks = split_blocks(&lines, &start, None);
    assert_eq!(blocks.len(), 0);
}

#[test]
fn framer_discards_after_error_code() {
    let lines = block(&[
        "1007-10.0.0.0/8          unicast [R1 10:00:00] * (100) [AS1i]",
        "1007-10.1.0.0/16         unicast [R2 10:00:00] * (100) [AS2i]",
        "9001 something went wrong",
        "1007-10.2.0.0/16         unicast [R3 10:00:00] * (100) [AS3i]",
    ]);
    let start = Marker::new("1007-", Follow::NonSpace);
    let blocks = split_blocks(&lines, &start, None);
    // The error code drops the block it interrupts and everything after it;
    // only the first, already closed block survives.
    assert_eq!(blocks.len(), 1);
    assert_eq!(blocks[0], vec!["1007-10.0.0.0/8          unicast [R1 10:00:00] * (100) [AS1i]"]);
}

#[test]
fn framer_flushes_block_before_end_code() {
    let lines = block(&[
        "1007-10.0.0.0/8          unicast [R1 10:00:00] * (100) [AS1i]",
        "    via 10.0.0.1 on eth0",
        "0000",
    ]);
    let start = Marker::new("1007-", Follow::NonSpace);
    let blocks = split_blocks(&lines, &start, None);
    assert_eq!(blocks.len(), 1);
    assert_eq!(blocks[0].len(), 2);
}

#[test]
fn status_parse_scenario() {
    let lines = block(&[
        "0001 BIRD 2.0.10 ready.",
        "1011-Router ID is 1.2.3.4",
        " Current server time is 2024-01-01 00:00:00",
        "0013 Daemon is up and running",
    ]);
    let status = lightwatcher::parsers::status::parse_status_response(&lines);
    assert_eq!(status.version, "2.0.10");
    assert_eq!(status.router_id, "1.2.3.4");
    assert_eq!(status.current_server, "2024-01-01 00:00:00");
    assert_eq!(status.message, "Daemon is up and running");
}

#[test]
fn status_block_parse_defaults_empty() {
    let b = block(&["unknown line"]);
    let status = BirdStatus::parse(&b);
    assert_eq!(status.version, "");
    assert_eq!(status.router_id, "");
    assert_eq!(status.last_reboot, "");
}

#[test]
fn datetime_test_parse() {
    let result = datetime::parse("2022-06-23 10:42:11", today()).unwrap();
    assert_eq!(result.year(), 2022);
    assert_eq!(result.month(), 6);
    assert_eq!(result.day(), 23);
    assert_eq!(result.hour(), 10);
    assert_eq!(result.minute(), 42);
    assert_eq!(result.second(), 11);
}

#[test]
fn test_parse_time() {
    let result = datetime::parse("10:42:11", today()).unwrap();
    assert_eq!(result.hour(), 10);
    assert_eq!(result.minute(), 42);
    assert_eq!(result.second(), 11);

    let result = datetime::parse("10:42:11.123", today()).unwrap();
    assert_eq!(result.hour(), 10);
}

#[test]
fn test_parse_date() {
    let result = datetime::parse("2025-05-23", today()).unwrap();
    assert_eq!(result.year(), 2025);
    assert_eq!(result.month(), 5);
    assert_eq!(result.day(), 23);
}

#[test]
fn test_parse_invalid() {
    let result = datetime::parse("2022-06-23 10:42:11 10:42:11", today());
    assert!(result.is_err());

    let result = datetime::parse("123:11", today());
    assert!(result.is_err());
}

#[test]
fn test_is_date() {
    assert!(datetime::is_date("2024-01-01"));
    assert!(!datetime::is_date("10:42:11"));
}

#[test]
fn neighbors_test_parse_change_stats_fields() {
    let s = "     received   rejected   filtered    ignored   RX limit      limit   accepted";
    let fields = parse_change_stats_fields(s);

    assert_eq!(fields[0], "received");
    assert_eq!(fields[4], "rx_limit");
    assert_eq!(fields[5], "limit");
}

#[test]
fn neighbors_test_parse_change_stats_values() {
    let s = "            471         47         12          0        ---          0        412";
    let values = parse_change_stats_values(s);
    assert_eq!(values[0], Some(471));
    assert_eq!(values[1], Some(47));
    assert_eq!(values[4], None);
    assert_eq!(values[6], Some(412));
}

#[test]
fn test_parse_protocol_header() {
    let line = "1002-R194_42    BGP        ---        up     09:39:25.123  Established";
    let mut protocol = Protocol::empty();
    parse_protocol_header(&mut protocol, &line, false).unwrap();

    assert_eq!(protocol.id, "R194_42");
    assert_eq!(protocol.state, "up");
}

#[test]
fn test_parse_protocol_header_date() {
    let line = "1002-R194_42    BGP        ---        up     2025-05-27  Established";
    let mut protocol = Protocol::empty();
    parse_protocol_header(&mut protocol, &line, false).unwrap();

    assert_eq!(protocol.id, "R194_42");
    assert_eq!(protocol.state, "up");
}

#[test]
fn test_parse_protocol_header_down() {
    let line = "1002-R_bhac01   BGP        ---        down   2023-04-19 09:08:10  Error: No listening socket";
    let mut protocol = Protocol::empty();
    parse_protocol_header(&mut protocol, &line, false).unwrap();

    assert_eq!(protocol.id, "R_bhac01");
    assert_eq!(protocol.state, "down");
    assert_eq!(protocol.last_error, "Error: No listening socket");
}

#[test]
fn test_parse_protocol_header_idle() {
    let line = "1002-R192_158   BGP        ---        start  2023-04-20 12:01:52  Idle          BGP Error: Bad peer AS";
    let mut protocol = Protocol::empty();
    parse_protocol_header(&mut protocol, &line, false).unwrap();
}

#[test]
fn test_parse_protocol_meta() {
    let line = "1006-  Description:    AnniNET Software Development";
    let mut protocol = Protocol::empty();
    parse_protocol_meta(&mut protocol, &line).unwrap();
    assert_eq!(protocol.description, "AnniNET Software Development");
}

#[test]
fn test_parse_protocol_bgpstate() {
    let mut protocol = Protocol::empty();
    let line = "   BGP state:          Established ";
    let next = parse_bgp_state(&mut protocol, &line).unwrap();
    assert_eq!(next, State::BgpState);

    let line = "   neighbor address: 172.31.194.42";
    parse_bgp_state(&mut protocol, &line).unwrap();
    let line = "     neighbor AS:      42";
    parse_bgp_state(&mut protocol, &line).unwrap();

    assert_eq!(protocol.address, "172.31.194.42");
    assert_eq!(protocol.asn, 42);
}

#[test]
fn protocols_test_parse_change_stats_fields() {
    let s = "     received   rejected   filtered    ignored   RX limit      limit   accepted";
    let fields = parse_change_stats_fields(s);

    assert_eq!(fields[0], "received");
    assert_eq!(fields[4], "rx_limit");
    assert_eq!(fields[5], "limit");
}

#[test]
fn protocols_test_parse_change_stats_values() {
    let s = "            471         47         12          0        ---          0        412";
    let values = parse_change_stats_values(s);
    assert_eq!(values[0], Some(471));
    assert_eq!(values[1], Some(47));
    assert_eq!(values[4], None);
    assert_eq!(values[6], Some(412));
}

#[test]
fn test_protocol_parse() {
    let b = block(&[
        "1002-R194_42    BGP        ---        up     2023-04-19 09:39:25  Established",
        "1006-  Description:    Packet Clearing House",
        "   BGP state:          Established",
        "    Neighbor address: 172.31.194.42",
        "    Neighbor AS:      42",
    ]);
    let protocol = Protocol::parse(&b, false).unwrap();
    assert_eq!(protocol.id, "R194_42");
    assert_eq!(protocol.address, "172.31.194.42");
    assert_eq!(protocol.asn, 42);
}

#[test]
fn protocol_parse_rejects_bad_as_number() {
    let b = block(&[
        "1002-R194_42    BGP        ---        up     2023-04-19 09:39:25  Established",
        "1006-  Description:    Packet Clearing House",
        "   BGP state:          Established",
        "    Neighbor AS:      notanumber",
    ]);
    assert!(Protocol::parse(&b, false).is_err());
}

#[test]
fn protocol_parse_sums_channel_counts() {
    let b = block(&[
        "1002-R194_42    BGP        ---        up     2023-04-19 09:39:25  Established",
        "1006-  Description:    Example",
        " Channel ipv4",
        "    Routes:         10 imported, 5 filtered, 8 exported",
        " Channel ipv6",
        "    Routes:         3 imported, 2 filtered, 1 exported",
    ]);
    let protocol = Protocol::parse(&b, false).unwrap();
    assert_eq!(protocol.routes.get("imported"), 13);
    assert_eq!(protocol.routes.get("filtered"), 7);
    assert_eq!(protocol.routes.get("exported"), 9);
    assert_eq!(protocol.routes.get("preferred"), 0);
    assert_eq!(protocol.channels.len(), 2);
}

#[test]
fn routes_count_parse_is_total() {
    let rc = RoutesCount::parse("12 imported, oops, banana filtered, 7 exported");
    // A malformed count contributes zero; a segment without two tokens
    // contributes nothing; nothing panics.
    assert_eq!(rc.get("imported"), 12);
    assert_eq!(rc.get("filtered"), 0);
    assert_eq!(rc.get("exported"), 7);
    let again = RoutesCount::parse("12 imported, oops, banana filtered, 7 exported");
    assert_eq!(again.get("imported"), 12);
}

#[test]
fn protocol_reader_skips_non_bgp_with_filter() {
    let lines = block(&[
        "1002-device1    Device     ---        up     2023-04-19  ",
        "1002-R194_42    BGP        ---        up     2023-04-19 09:39:25  Established",
        "   BGP state:          Established",
        "    Neighbor address: 111.111.194.42",
        "    Neighbor AS:      42",
        "0000",
    ]);
    let protocols = lightwatcher::parsers::protocols::read_protocols(&lines, true);
    let keyed = lightwatcher::parsers::protocols::protocols_map(protocols);
    assert_eq!(keyed.len(), 1);
    assert_eq!(keyed[0].0, "R194_42");
    assert_eq!(keyed[0].1.address, "111.111.194.42");
}

#[test]
fn test_match_route_header() {
    let line = "1007-203.17.254.0/24      unicast [R192_172 2023-04-19 09:28:42] * (100) [AS7545i]";
    let h = route_header(&chars(line)).unwrap();
    assert_eq!(h.prefix.as_deref(), Some("203.17.254.0/24"));
    assert_eq!(h.neighbor, "R192_172");

    let line = "1007-219.0.0.0/9          unicast [ebgp_rs4 10:38:20.602 from 10.255.253.250] * (100) [AS64967i]";
    let h = route_header(&chars(line)).unwrap();
    assert_eq!(h.neighbor, "ebgp_rs4");
    assert_eq!(h.learnt.as_deref(), Some("10.255.253.250"));
}

#[test]
fn test_match_route_header_follow() {
    let line = "1007-                     unicast [R197_58 2023-04-19 09:28:23] (100) [AS9318i]";
    let h = route_header(&chars(line)).unwrap();
    assert_eq!(h.neighbor, "R197_58");
    assert_eq!(h.prefix, None);
    assert!(!h.primary);
}

#[test]
fn test_parse_route_meta() {
    let mut route = lightwatcher::bird::Route::empty();
    let line = "    via 172.31.195.39 on vx0";
    let state = parse_route_meta(&mut route, line).unwrap();
    assert_eq!(state, routes::State::Meta);
    let line = "1008-   Type: BGP univ";
    let state = parse_route_meta(&mut route, line).unwrap();
    assert_eq!(state, routes::State::BGP(routes::BGPState::Attributes));

    assert_eq!(route.gateway, "172.31.195.39");
    assert_eq!(route.interface, "vx0");
    assert_eq!(route.route_type, vec!["BGP", "univ"]);
}

#[test]
fn test_parse_large_communities() {
    let line = "(111, 0, 1120) (222, 0, 123) (333, 222, 333)";
    let communities = parse_large_communities(line).unwrap();

    let expected = vec![
        LargeCommunity(111, 0, 1120),
        LargeCommunity(222, 0, 123),
        LargeCommunity(333, 222, 333),
    ];

    for (i, e) in expected.iter().enumerate() {
        assert_eq!(&communities[i], e);
    }
}

#[test]
fn test_parse_ext_communities() {
    let line = "BGP.ext_community: (rt, 64512, 21) (rt, 64512, 10) (rt, 64512, 41) (generic, 0x43000000, 0x1) (rt, 64512, 52)";
    let communities = parse_ext_communities(line).expect("must parse");

    let expected = vec![
        ExtCommunity("rt".into(), "64512".into(), "21".into()),
        ExtCommunity("rt".into(), "64512".into(), "10".into()),
        ExtCommunity("rt".into(), "64512".into(), "41".into()),
        ExtCommunity("generic".into(), "0x43000000".into(), "0x1".into()),
        ExtCommunity("rt".into(), "64512".into(), "52".into()),
    ];

    for (i, e) in expected.iter().enumerate() {
        assert_eq!(&communities[i], e);
    }
}

#[test]
fn route_parse_ext_community_block() {
    let b = block(&[
        "1007-203.0.113.0/24       unicast [R1 2023-04-19 09:28:42] * (100) [AS1i]",
        "    via 10.0.0.1 on eth0",
        "1008-   Type: BGP univ",
        "1012-   BGP.origin: IGP",
        "1012-   BGP.ext_community: (rt, 64512, 21) (generic, 0x43, 0x1)",
    ]);
    let route = lightwatcher::bird::Route::parse(&b).unwrap();
    assert_eq!(
        route.bgp.ext_communities,
        vec![
            ExtCommunity("rt".into(), "64512".into(), "21".into()),
            ExtCommunity("generic".into(), "0x43".into(), "0x1".into()),
        ]
    );
    assert_eq!(route.bgp.origin, "IGP");
    assert_eq!(route.network, "203.0.113.0/24");
    assert!(route.primary);
    assert_eq!(route.metric, 100);
}

#[test]
fn route_parse_communities_and_attributes() {
    let b = block(&[
        "1007-203.0.113.0/24       unicast [R1 2023-04-19 09:28:42] * (100) [AS1i]",
        "    via 10.0.0.1 on eth0",
        "1008-   Type: BGP univ",
        "1012-   BGP.as_path: 64500 64511",
        "1012-   BGP.next_hop: 10.0.0.1",
        "1012-   BGP.med: 5",
        "1012-   BGP.local_pref: 100",
        "1012-   BGP.otc: 213973",
        "1012-   BGP.community: (0,1) (0,2)",
        "\t\t(0,3)",
        "1012-   BGP.large_community: (111, 0, 1120) (222, 0, 123)",
    ]);
    let route = lightwatcher::bird::Route::parse(&b).unwrap();
    assert_eq!(route.bgp.as_path, vec!["64500", "64511"]);
    assert_eq!(route.bgp.next_hop, "10.0.0.1");
    assert_eq!(route.bgp.med, "5");
    assert_eq!(route.bgp.local_pref, "100");
    assert_eq!(route.bgp.otc.as_deref(), Some("213973"));
    assert_eq!(
        route.bgp.communities,
        vec![
            lightwatcher::bird::Community(0, 1),
            lightwatcher::bird::Community(0, 2),
            lightwatcher::bird::Community(0, 3),
        ]
    );
    assert_eq!(
        route.bgp.large_communities,
        vec![LargeCommunity(111, 0, 1120), LargeCommunity(222, 0, 123)]
    );
}

#[test]
fn route_parse_is_deterministic() {
    let b = block(&[
        "1007-203.0.113.0/24       unicast [R1 2023-04-19 09:28:42] * (100) [AS1i]",
        "    via 10.0.0.1 on eth0",
        "1008-   Type: BGP univ",
        "1012-   BGP.origin: IGP",
    ]);
    let first = lightwatcher::bird::Route::parse(&b).unwrap();
    let second = lightwatcher::bird::Route::parse(&b).unwrap();
    assert_eq!(first.network, second.network);
    assert_eq!(first.gateway, second.gateway);
    assert_eq!(first.metric, second.metric);
    assert_eq!(first.bgp.origin, second.bgp.origin);
    assert_eq!(first.route_type, second.route_type);
}

#[test]
fn route_parse_rejects_bad_metric() {
    let b = block(&[
        "1007-203.0.113.0/24       unicast [R1 2023-04-19 09:28:42] * (99999999999) [AS1i]",
    ]);
    assert!(lightwatcher::bird::Route::parse(&b).is_err());
}

#[test]
fn prefix_group_inherits_network_and_drops_anonymous() {
    let b = block(&[
        "1007-203.0.113.0/24       unicast [R1 2023-04-19 09:28:42] * (100) [AS1i]",
        "    via 10.0.0.1 on eth0",
        "1007-                     unicast [R2 2023-04-19 09:28:23] (100) [AS2i]",
        "    via 10.0.0.2 on eth0",
        "1007-not a route header at all",
    ]);
    let routes = parse_prefix_group(&b).unwrap();
    // The third piece never matches a header, so its route keeps no
    // neighbor id and is dropped at the group boundary.
    assert_eq!(routes.len(), 2);
    assert_eq!(routes[0].network, "203.0.113.0/24");
    assert_eq!(routes[1].network, "203.0.113.0/24");
    assert_eq!(routes[0].neighbor_id.as_deref(), Some("R1"));
    assert_eq!(routes[1].neighbor_id.as_deref(), Some("R2"));
}

#[test]
fn prefix_group_skips_greeting_block() {
    let b = block(&[
        "0001 BIRD 2.0.10 ready.",
        "1007-203.0.113.0/24       unicast [R1 2023-04-19 09:28:42] * (100) [AS1i]",
        "    via 10.0.0.1 on eth0",
    ]);
    let routes = parse_prefix_group(&b).unwrap();
    assert_eq!(routes.len(), 1);
    assert_eq!(routes[0].neighbor_id.as_deref(), Some("R1"));
}

#[test]
fn collect_routes_respects_cutoff() {
    let mk = |n: &str, id: &str| {
        let b = block(&[&format!(
            "1007-{}       unicast [{} 2023-04-19 09:28:42] * (100) [AS1i]",
            n, id
        )]);
        parse_prefix_group(&b).unwrap()
    };
    let groups = vec![
        mk("10.0.0.0/8", "R1"),
        mk("10.1.0.0/16", "R2"),
        mk("10.2.0.0/16", "R3"),
    ];
    let collected = lightwatcher::parsers::routes::collect_with_cutoff(groups, Some(2));
    assert_eq!(collected.len(), 2);

    let groups = vec![mk("10.0.0.0/8", "R1"), mk("10.1.0.0/16", "R2")];
    let collected = lightwatcher::parsers::routes::collect_with_cutoff(groups, None);
    assert_eq!(collected.len(), 2);
}

#[test]
fn status_stop_marker_ends_block() {
    let lines = block(&[
        "0001 BIRD 2.0.10 ready.",
        "0013 Daemon is up and running",
        "0013 a second message that belongs to the next block",
    ]);
    let status = lightwatcher::parsers::status::parse_status_response(&lines);
    assert_eq!(status.version, "2.0.10");
    assert_eq!(status.message, "Daemon is up and running");
}

#[test]
fn routes_count_saturates_at_integer_limit() {
    let rc = RoutesCount::parse("4294967295 imported, 4294967296 rejected");
    assert_eq!(rc.get("imported"), 4294967295);
    // A count that does not fit the integer type contributes zero.
    assert_eq!(rc.get("rejected"), 0);

    let b = block(&[
        "1002-R1         BGP        ---        up     2023-04-19 09:39:25  Established",
        " Channel ipv4",
        "    Routes:         4294967295 imported",
        " Channel ipv6",
        "    Routes:         7 imported",
    ]);
    let protocol = Protocol::parse(&b, false).unwrap();
    // The summary saturates instead of wrapping.
    assert_eq!(protocol.routes.get("imported"), u32::MAX);
}

#[test]
fn datetime_validates_calendar() {
    assert!(datetime::parse("2023-02-29", today()).is_err());
    assert!(datetime::parse("2024-02-29", today()).is_ok());
    assert!(datetime::parse("2024-13-01", today()).is_err());
    assert!(datetime::parse("2024-04-31", today()).is_err());
    assert!(datetime::parse("24:00:00", today()).is_err());
}
