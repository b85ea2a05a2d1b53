use bitcoin::network::Network;
use bitcoin::secp256k1::{PublicKey, Secp256k1, SecretKey};
use lightning::routing::gossip::NetworkGraph;
use lightning::types::features::ChannelFeatures;
use lightning::util::ser::Writeable;
use scorer_kit::graph::{read_network_graph, GraphChannel, NetworkGraphSnapshot, NoopLogger};
use scorer_kit::invoice::{bare_invoice_text, parse_bolt11};
use scorer_kit::node::{NodeId, NodeSet};
use scorer_kit::node_scids::{
    add_nodes, build_node_scids_report, read_payees, render_node_scids_text, score_filter,
    select_nodes, NodeScidCsvRow, NodeScidsScoreFilter, NodeSelectionError,
};
use scorer_kit::diagnostic::ChannelLiquidityDiagnostic;
use scorer_kit::overlay::apply_overlay_filter;
use scorer_kit::scid_list::parse_scid_list;
use scorer_kit::score_file::ScoreFile;
use scorer_kit::weight::Weight;
use std::collections::{BTreeMap, BTreeSet};

const TEST_INVOICE: &str = "\
    lnbc100p1psj9jhxdqud3jxktt5w46x7unfv9kz6mn0v3jsnp4q0d3p2sfluzdx45tqcs\
    h2pu5qc7lgq0xs578ngs6s0s68ua4h7cvspp5q6rmq35js88zp5dvwrv9m459tnk2zunwj5jalqtyxqulh0l\
    5gflssp5nf55ny5gcrfl30xuhzj3nphgj27rstekmr9fw3ny5989s300gyus9qyysgqcqpcrzjqw2sxwe993\
    h5pcm4dxzpvttgza8zhkqxpgffcrf5v25nwpr3cmfg7z54kuqq8rgqqqqqqqq2qqqqq9qq9qrzjqd0ylaqcl\
    j9424x9m8h2vcukcgnm6s56xfgu3j78zyqzhgs4hlpzvznlugqq9vsqqqqqqqlgqqqqqeqq9qrzjqwldmj9d\
    ha74df76zhx6l9we0vjdquygcdt3kssupehe64g6yyp5yz5rhuqqwccqqyqqqqlgqqqqjcqq9qrzjqf9e58a\
    guqr0rcun0ajlvmzq3ek63cw2w282gv3z5uupmuwvgjtq2z55qsqqg6qqqyqqqrtnqqqzq3cqygrzjqvphms\
    ywntrrhqjcraumvc4y6r8v4z5v593trte429v4hredj7ms5z52usqq9ngqqqqqqqlgqqqqqqgq9qrzjq2v0v\
    p62g49p7569ev48cmulecsxe59lvaw3wlxm7r982zxa9zzj7z5l0cqqxusqqyqqqqlgqqqqqzsqygarl9fh3\
    8s0gyuxjjgux34w75dnc6xp2l35j7es3jd4ugt3lu0xzre26yg5m7ke54n2d5sym4xcmxtl8238xxvw5h5h5\
    j5r6drg6k6zcqj0fcwg";

type OutsideNode = lightning::routing::gossip::NodeId;

fn test_node_id(secret_byte: u8) -> OutsideNode {
    let secp_ctx = Secp256k1::new();
    let secret = SecretKey::from_slice(&[secret_byte; 32]).expect("valid test secret key");
    OutsideNode::from_pubkey(&PublicKey::from_secret_key(&secp_ctx, &secret))
}

fn ours(node: &OutsideNode) -> NodeId {
    NodeId { bytes: *node.as_array() }
}

fn node_set(nodes: &[OutsideNode]) -> NodeSet {
    let mut set = NodeSet::new();
    for node in nodes {
        set.insert(ours(node));
    }
    set
}

fn graph_bytes(channels: &[(u64, OutsideNode, OutsideNode, Option<u64>)]) -> Vec<u8> {
    let graph = NetworkGraph::new(Network::Bitcoin, &NoopLogger);
    for (scid, node_one, node_two, capacity_sats) in channels {
        graph
            .add_channel_from_partial_announcement(
                *scid,
                *capacity_sats,
                0,
                ChannelFeatures::empty(),
                *node_one,
                *node_two,
            )
            .expect("add test graph channel");
    }
    let mut bytes = Vec::new();
    graph.write(&mut bytes).expect("serialize graph");
    bytes
}

fn test_graph(channels: &[(u64, OutsideNode, OutsideNode, Option<u64>)]) -> NetworkGraphSnapshot {
    read_network_graph("graph.bin", &graph_bytes(channels)).expect("read graph")
}

fn entry(scid: u64) -> ChannelLiquidityDiagnostic {
    ChannelLiquidityDiagnostic {
        scid,
        min_liquidity_offset_msat: 0,
        max_liquidity_offset_msat: 0,
        last_updated_secs: 0,
        offset_history_last_updated_secs: 0,
        last_datapoint_time_secs: 0,
        has_history: false,
        total_valid_points_tracked: Weight { bits: 0 },
        min_history_buckets: [0; 32],
        max_history_buckets: [0; 32],
    }
}

fn scored(label: &str, scids: &[u64]) -> ScoreFile {
    ScoreFile {
        label: label.to_string(),
        file_size_bytes: 1,
        diagnostics: scids.iter().map(|scid| entry(*scid)).collect(),
    }
}

#[test]
fn parse_bolt11_accepts_lightning_uri_prefix() {
    let invoice = parse_bolt11(&format!("lightning:{}", TEST_INVOICE)).expect("parse invoice");

    assert_eq!(invoice.to_string(), TEST_INVOICE);
}

#[test]
fn invoices_may_have_an_upper_case_scheme_and_white_space_around() {
    for text in [
        TEST_INVOICE.to_string(),
        format!("  {}\n", TEST_INVOICE),
        format!("\tLIGHTNING:{}\u{a0}", TEST_INVOICE),
    ] {
        assert_eq!(parse_bolt11(&text).expect("parse invoice").to_string(), TEST_INVOICE);
    }
}

#[test]
fn only_the_two_schemes_are_taken_off_and_only_once() {
    assert_eq!(bare_invoice_text(" lightning:x "), "x");
    assert_eq!(bare_invoice_text("LIGHTNING:x"), "x");
    assert_eq!(bare_invoice_text("Lightning:x"), "Lightning:x");
    assert_eq!(bare_invoice_text("lightning:LIGHTNING:x"), "LIGHTNING:x");
    assert_eq!(bare_invoice_text("lightning: x"), " x");
    assert_eq!(bare_invoice_text("lightning"), "lightning");
    assert_eq!(bare_invoice_text("lightning:"), "");
    assert_eq!(bare_invoice_text("  "), "");
    assert_eq!(bare_invoice_text(" LIGHTNING: "), "");
}

#[test]
fn a_text_that_is_no_invoice_is_refused() {
    let err = parse_bolt11("lightning:nothing").expect_err("no invoice");
    let outside: lightning_invoice::ParseOrSemanticError =
        "nothing".parse::<lightning_invoice::Bolt11Invoice>().expect_err("no invoice");
    assert_eq!(err.cause, outside);
    assert_eq!(err.to_string(), format!("parse bolt11 invoice: {:?}", outside));
}

#[test]
fn node_scids_requires_node_or_invoice() {
    let err = select_nodes(&vec![], &vec![])
        .expect_err("empty node selection should fail before graph read");

    assert!(err.to_string().contains("at least one --node or --invoice"));
}

#[test]
fn nodes_are_selected_by_key_and_by_invoice() {
    let node = test_node_id(2).to_string();
    let payee = TEST_INVOICE
        .parse::<lightning_invoice::Bolt11Invoice>()
        .expect("invoice")
        .recover_payee_pub_key()
        .to_string();
    let nodes = vec![node.clone(), node.to_uppercase()];
    let selected = select_nodes(&nodes, &vec![format!("lightning:{}", TEST_INVOICE)])
        .expect("select nodes");
    assert_eq!(selected.len(), 2);
    assert!(selected.contains(&ours(&test_node_id(2))));
    assert!(selected.contains(&NodeId::from_str(&payee).expect("payee")));
    assert!(!selected.contains(&ours(&test_node_id(3))));

    let payees = read_payees(&vec![TEST_INVOICE.to_string()]).expect("payees");
    assert_eq!(payees, vec![payee.clone()]);
    let by_invoice = select_nodes(&vec![], &vec![TEST_INVOICE.to_string()]).expect("select");
    assert_eq!(by_invoice.len(), 1);
    let by_both = select_nodes(&vec![payee], &vec![TEST_INVOICE.to_string()]).expect("select");
    assert_eq!(by_both.len(), 1);
}

#[test]
fn a_bad_node_is_refused_before_a_bad_invoice() {
    let good = test_node_id(2).to_string();
    let bad = "02zz".to_string();
    let err = select_nodes(&vec![good.clone(), bad.clone()], &vec!["x".to_string()])
        .expect_err("bad node");
    assert_eq!(err.to_string(), "parse node pubkey '02zz'");
    match err {
        NodeSelectionError::Node(e) => {
            let outside = bad.parse::<OutsideNode>().expect_err("bad node");
            assert_eq!(e.cause, outside);
        },
        _ => panic!("the node is the first thing that is wrong"),
    }
    let err = select_nodes(&vec![good.clone()], &vec!["x".to_string()]).expect_err("bad invoice");
    assert!(matches!(err, NodeSelectionError::Invoice(_)));
    assert!(err.to_string().starts_with("parse bolt11 invoice: "));

    let mut nodes = NodeSet::new();
    let err = add_nodes(&vec![good, bad], &mut nodes).expect_err("bad node");
    assert_eq!(err.text, "02zz");
    assert_eq!(nodes.len(), 1);
}

#[test]
fn node_texts_are_exactly_sixty_six_hex_digits() {
    let node = test_node_id(9);
    let text = node.to_string();
    let read = NodeId::from_str(&text).expect("read node");
    assert_eq!(read.bytes, *node.as_array());
    assert_eq!(read.to_string(), text);
    assert_eq!(NodeId::from_str(&text.to_uppercase()).expect("read node").to_string(), text);
    let wide = format!("\u{e9}{}", "0".repeat(64));
    for bad in ["", &text[1..], &format!("{}0", text), &format!("g{}", &text[1..]), &wide] {
        assert!(NodeId::from_str(bad).is_err(), "{}", bad);
    }
    let all: Vec<u8> = (0..33).map(|i| (i * 8) as u8).collect();
    let mut bytes = [0; 33];
    bytes.copy_from_slice(&all);
    let text = NodeId { bytes }.to_string();
    assert!(text.starts_with("0008101820"));
    assert_eq!(NodeId::from_str(&text).expect("read node").bytes, bytes);
}

#[test]
fn node_sets_hold_a_node_once() {
    let mut set = NodeSet::new();
    assert!(set.is_empty());
    set.insert(ours(&test_node_id(2)));
    set.insert(ours(&test_node_id(2)));
    assert_eq!(set.len(), 1);
    assert!(!set.is_empty());
    set.insert(ours(&test_node_id(3)));
    assert_eq!(set.len(), 2);
    assert!(set.contains(&ours(&test_node_id(3))));
    assert!(!set.contains(&ours(&test_node_id(4))));
}

#[test]
fn node_scids_report_filters_graph_channels_to_requested_nodes_and_score_scids() {
    let target = test_node_id(2);
    let peer_a = test_node_id(3);
    let peer_b = test_node_id(4);
    let graph = test_graph(&[
        (10, target, peer_a, Some(1_000)),
        (20, peer_b, target, Some(2_000)),
        (30, peer_a, peer_b, Some(3_000)),
    ]);
    let requested_nodes = node_set(&[target]);
    let score_scids = BTreeSet::from([20, 30]);

    let report = build_node_scids_report(
        "graph.bin",
        &graph,
        &requested_nodes,
        Some((
            NodeScidsScoreFilter { file: "incoming.bin".to_string(), entry_count: 2 },
            score_scids,
        )),
    );

    assert_eq!(report.graph_node_count, 3);
    assert_eq!(report.graph_channel_count, 3);
    assert_eq!(report.requested_node_count, 1);
    assert_eq!(report.matched_node_count, 1);
    assert_eq!(report.scid_count, 1);
    assert_eq!(report.score_filter.as_ref().unwrap().entry_count, 2);
    assert_eq!(report.channels[0].scid, 20);
    assert_eq!(report.channels[0].node, target.to_string());
    assert_eq!(report.channels[0].peer, peer_b.to_string());
    assert_eq!(report.channels[0].capacity_sats, Some(2_000));
}

#[test]
fn read_network_graph_decodes_serialized_ldk_graph() {
    let target = test_node_id(2);
    let peer = test_node_id(3);
    let bytes = graph_bytes(&[(42, target, peer, Some(50_000))]);

    let decoded = read_network_graph("network_graph_cache", &bytes).expect("read graph");
    let report =
        build_node_scids_report("network_graph_cache", &decoded, &node_set(&[target]), None);

    assert_eq!(report.scid_count, 1);
    assert_eq!(report.channels[0].scid, 42);
    assert_eq!(report.channels[0].capacity_sats, Some(50_000));
    assert_eq!(report.graph, "network_graph_cache");
    assert!(report.score_filter.is_none());
}

#[test]
fn bytes_that_are_no_graph_are_refused() {
    let err = read_network_graph("dir/graph", &vec![]).expect_err("no graph");
    assert_eq!(err.to_string(), "decode NetworkGraph from dir/graph: ShortRead");
    let mut bytes = graph_bytes(&[(42, test_node_id(2), test_node_id(3), None)]);
    bytes.truncate(50);
    let err = read_network_graph("dir/graph", &bytes).expect_err("half a graph");
    assert_eq!(err.to_string(), "decode NetworkGraph from dir/graph: ShortRead");
}

#[test]
fn channels_keep_their_nodes_and_capacities() {
    let a = test_node_id(2);
    let b = test_node_id(3);
    let graph = test_graph(&[(7, a, b, None), (5, b, a, Some(9))]);
    assert_eq!(graph.node_count, 2);
    assert_eq!(graph.channels.keys().copied().collect::<Vec<_>>(), vec![5, 7]);
    let seven = graph.channels.get(&7).expect("channel");
    assert_eq!(seven.node_one.bytes, *a.as_array());
    assert_eq!(seven.node_two.bytes, *b.as_array());
    assert_eq!(seven.capacity_sats, None);
    assert_eq!(seven.one_to_two, None);
    assert_eq!(seven.two_to_one, None);
    assert_eq!(graph.channels.get(&5).expect("channel").capacity_sats, Some(9));
}

#[test]
fn the_first_node_of_a_channel_counts_where_both_are_requested() {
    let a = test_node_id(2);
    let b = test_node_id(3);
    let c = test_node_id(4);
    let channel = |one: &OutsideNode, two: &OutsideNode| GraphChannel {
        node_one: ours(one),
        node_two: ours(two),
        capacity_sats: None,
        one_to_two: Some(1),
        two_to_one: None,
    };
    let graph = NetworkGraphSnapshot {
        node_count: 3,
        channels: BTreeMap::from([(30, channel(&b, &a)), (10, channel(&c, &b)), (20, channel(&c, &c))]),
    };
    let report = build_node_scids_report("g", &graph, &node_set(&[a, b]), None);
    assert_eq!(report.scid_count, 2);
    assert_eq!(report.requested_node_count, 2);
    assert_eq!(report.matched_node_count, 1);
    assert_eq!(report.channels[0].scid, 10);
    assert_eq!(report.channels[0].node, b.to_string());
    assert_eq!(report.channels[0].peer, c.to_string());
    assert_eq!(report.channels[1].scid, 30);
    assert_eq!(report.channels[1].node, b.to_string());
    assert!(report.channels[1].has_one_to_two_update);
    assert!(!report.channels[1].has_two_to_one_update);
    let row = NodeScidCsvRow::from(&report.channels[1]);
    assert_eq!(row.scid, 30);
    assert_eq!(row.node, b.to_string());
    assert_eq!(row.peer, a.to_string());
    assert_eq!(row.capacity_sats, None);
    assert!(row.has_one_to_two_update && !row.has_two_to_one_update);
    assert_eq!(render_node_scids_text(&report), "10\n30\n");
}

#[test]
fn the_text_of_a_report_is_an_allowlist_that_misses_nothing() {
    let target = test_node_id(2);
    let peer = test_node_id(3);
    let other = test_node_id(4);
    let graph = test_graph(&[
        (500, target, peer, None),
        (9, peer, target, None),
        (70, target, other, None),
        (80, peer, other, None),
    ]);
    let incoming = scored("incoming", &[80, 9, 500, 1]);
    let filter = score_filter("incoming.bin", &incoming);
    assert_eq!(filter.0.file, "incoming.bin");
    assert_eq!(filter.0.entry_count, 4);
    assert_eq!(filter.1, BTreeSet::from([1, 9, 80, 500]));
    let report = build_node_scids_report("g", &graph, &node_set(&[target]), Some(filter));
    let text = render_node_scids_text(&report);
    assert_eq!(text, "9\n500\n");
    let mut allowed = BTreeSet::new();
    parse_scid_list(&text, "selected.scids", &mut allowed).expect("an allowlist");
    assert_eq!(allowed, BTreeSet::from([9, 500]));
    let mut files = vec![scored("baseline", &[70, 80]), incoming];
    let (overlay, _) = apply_overlay_filter(&mut files, &allowed);
    assert_eq!(overlay.incoming_files[0].missing_allowed_scid_count, 0);
    assert_eq!(overlay.incoming_files[0].included_entry_count, 2);
}

#[test]
fn a_report_without_channels_is_an_empty_list() {
    let graph = test_graph(&[(1, test_node_id(2), test_node_id(3), None)]);
    let report = build_node_scids_report("g", &graph, &node_set(&[test_node_id(5)]), None);
    assert_eq!(report.scid_count, 0);
    assert_eq!(report.matched_node_count, 0);
    assert_eq!(render_node_scids_text(&report), "");
}

#[test]
fn a_filter_intersects_and_more_nodes_select_more() {
    let a = test_node_id(2);
    let b = test_node_id(3);
    let c = test_node_id(4);
    let graph = test_graph(&[(1, a, b, None), (2, b, c, None), (3, a, c, None)]);
    let scids = |nodes: &[OutsideNode], filter: Option<&[u64]>| -> Vec<u64> {
        let filter = filter.map(|scids| score_filter("f", &scored("f", scids)));
        let report = build_node_scids_report("g", &graph, &node_set(nodes), filter);
        assert!(report.matched_node_count <= report.requested_node_count);
        report.channels.iter().map(|row| row.scid).collect()
    };
    assert_eq!(scids(&[a], None), vec![1, 3]);
    assert_eq!(scids(&[a], Some(&[3, 2, 9])), vec![3]);
    assert_eq!(scids(&[a], Some(&[])), Vec::<u64>::new());
    assert_eq!(scids(&[a, b], None), vec![1, 2, 3]);
}
