//! The channels of selected nodes.
use crate::graph::{GraphChannel, NetworkGraphSnapshot};
use crate::invoice;
use crate::invoice::{parse_bolt11, payee_text, InvoiceError};
use crate::keys;
use crate::node;
use crate::node::{NodeId, NodeSet};
use crate::scid_list;
use crate::score_file::ScoreFile;
use crate::text;
use crate::text::push_decimal;
use lightning::bitcoin::hex::parse::HexToArrayError;
use std::collections::BTreeSet;
use vstd::prelude::*;
use vstd::string::StringExecFns;

verus! {

/// A text that is no public key of a node.
#[derive(Debug)]
pub struct NodeTextError {
    pub text: String,
    pub cause: HexToArrayError,
}

/// Why nodes cannot be selected.
#[derive(Debug)]
pub enum NodeSelectionError {
    /// One of the nodes is no public key.
    Node(NodeTextError),
    /// One of the invoices is none.
    Invoice(InvoiceError),
    /// There is neither a node nor an invoice.
    Empty,
}

impl NodeTextError {
    /// The message: the text.
    pub open spec fn message(self) -> Seq<char> {
        "parse node pubkey '"@ + self.text@ + "'"@
    }
}

impl NodeSelectionError {
    /// The message.
    pub open spec fn message(self) -> Seq<char> {
        match self {
            NodeSelectionError::Node(e) => e.message(),
            NodeSelectionError::Invoice(e) => e.message(),
            NodeSelectionError::Empty => "node-scids requires at least one --node or --invoice"@,
        }
    }

    /// Writes the message.
    pub fn to_string(&self) -> (r: String)
        ensures
            r@ == self.message(),
    {
        match self {
            NodeSelectionError::Node(e) => {
                let mut out = String::from_str("parse node pubkey '");
                out.append(e.text.as_str());
                out.append("'");
                out
            },
            NodeSelectionError::Invoice(e) => e.to_string(),
            NodeSelectionError::Empty => String::from_str(
                "node-scids requires at least one --node or --invoice",
            ),
        }
    }
}

/// Whether every text is the public key of a node.
pub open spec fn all_nodes(texts: Seq<String>) -> bool {
    forall|j: int| 0 <= j < texts.len() ==> node::is_node_text((#[trigger] texts[j])@)
}

/// Whether a text is the first one that is no public key of a node.
pub open spec fn is_first_non_node(texts: Seq<String>, i: int) -> bool {
    0 <= i < texts.len() && !node::is_node_text(texts[i]@) && all_nodes(texts.take(i))
}

/// The public keys that texts name.
pub open spec fn node_keys(texts: Seq<String>) -> Set<Seq<u8>> {
    texts.map_values(|s: String| node::node_bytes(s@)).to_set()
}

/// Whether a text holds an invoice.
pub open spec fn is_invoice(s: Seq<char>) -> bool {
    invoice::parsed_invoice(invoice::bare_invoice(s)) is Ok
}

/// Whether every text holds an invoice.
pub open spec fn all_invoices(texts: Seq<String>) -> bool {
    forall|j: int| 0 <= j < texts.len() ==> is_invoice((#[trigger] texts[j])@)
}

/// Whether a text is the first one that holds no invoice.
pub open spec fn is_first_non_invoice(texts: Seq<String>, i: int) -> bool {
    0 <= i < texts.len() && !is_invoice(texts[i]@) && all_invoices(texts.take(i))
}

/// The payee of the invoice in a text, in hexadecimal digits.
pub open spec fn payee_of(s: Seq<char>) -> Seq<char> {
    invoice::invoice_payee(invoice::parsed_invoice(invoice::bare_invoice(s))->Ok_0)
}

/// The public keys of the payees of invoices.
pub open spec fn payee_keys(invoices: Seq<String>) -> Set<Seq<u8>> {
    invoices.map_values(|s: String| node::node_bytes(payee_of(s@))).to_set()
}

/// Whether an error speaks of the first text that is no public key of a node.
pub open spec fn refuses_node(e: NodeTextError, texts: Seq<String>) -> bool {
    exists|i: int|
        {
            &&& #[trigger] is_first_non_node(texts, i)
            &&& e.text@ == texts[i]@
            &&& e.cause == node::node_text_error(texts[i]@)
        }
}

/// Whether an error speaks of the first text that is no invoice.
pub open spec fn refuses_invoice(e: InvoiceError, invoices: Seq<String>) -> bool {
    exists|i: int|
        {
            &&& #[trigger] is_first_non_invoice(invoices, i)
            &&& invoice::parsed_invoice(invoice::bare_invoice(invoices[i]@)) matches Err(cause)
            &&& e.cause == cause
        }
}

/// Adds the nodes that texts name to a set. Up to a text that names none, they are added even
/// if there is one.
pub fn add_nodes(texts: &Vec<String>, nodes: &mut NodeSet) -> (r: Result<(), NodeTextError>)
    ensures
        match r {
            Ok(()) => {
                &&& all_nodes(texts@)
                &&& final(nodes)@ == old(nodes)@.union(node_keys(texts@))
            },
            Err(e) => refuses_node(e, texts@) && exists|i: int|
                {
                    &&& #[trigger] is_first_non_node(texts@, i)
                    &&& final(nodes)@ == old(nodes)@.union(node_keys(texts@.take(i)))
                },
        },
{
    let ghost start = nodes@;
    let ghost key = |s: String| node::node_bytes(s@);
    let mut i: usize = 0;
    assert(start.union(node_keys(texts@.take(0))) =~= start);
    while i < texts.len()
        invariant
            i <= texts@.len(),
            start == old(nodes)@,
            key == |s: String| node::node_bytes(s@),
            all_nodes(texts@.take(i as int)),
            nodes@ == start.union(node_keys(texts@.take(i as int))),
        decreases texts@.len() - i,
    {
        match NodeId::from_str(texts[i].as_str()) {
            Ok(node) => {
                nodes.insert(node);
                proof {
                    let before = texts@.take(i as int);
                    assert(texts@.take(i + 1) =~= before.push(texts@[i as int]));
                    assert(texts@.take(i + 1).map_values(key) =~= before.map_values(key).push(
                        node@,
                    ));
                    before.map_values(key).lemma_push_to_set_commute(node@);
                    assert(nodes@ =~= start.union(node_keys(texts@.take(i + 1))));
                }
            },
            Err(cause) => {
                assert(is_first_non_node(texts@, i as int));
                return Err(NodeTextError { text: texts[i].clone(), cause });
            },
        }
        i = i + 1;
    }
    assert(texts@.take(i as int) =~= texts@);
    Ok(())
}

/// Reads the payees of invoices.
pub fn read_payees(invoices: &Vec<String>) -> (r: Result<Vec<String>, InvoiceError>)
    ensures
        match r {
            Ok(payees) => {
                &&& all_invoices(invoices@)
                &&& all_nodes(payees@)
                &&& payees@.len() == invoices@.len()
                &&& forall|i: int|
                    0 <= i < payees@.len() ==> (#[trigger] payees@[i])@ == payee_of(invoices@[i]@)
            },
            Err(e) => refuses_invoice(e, invoices@),
        },
{
    let mut payees: Vec<String> = Vec::new();
    let mut i: usize = 0;
    while i < invoices.len()
        invariant
            i <= invoices@.len(),
            forall|j: int| 0 <= j < i ==> is_invoice((#[trigger] invoices@[j])@),
            payees@.len() == i,
            forall|j: int|
                0 <= j < i ==> (#[trigger] payees@[j])@ == payee_of(invoices@[j]@)
                    && node::is_node_text(payees@[j]@),
        decreases invoices@.len() - i,
    {
        match parse_bolt11(invoices[i].as_str()) {
            Ok(invoice) => {
                payees.push(payee_text(&invoice));
            },
            Err(e) => {
                assert(is_first_non_invoice(invoices@, i as int));
                return Err(e);
            },
        }
        i = i + 1;
    }
    Ok(payees)
}

/// Selects the nodes that are named by their public keys or are the payees of invoices.
pub fn select_nodes(nodes: &Vec<String>, invoices: &Vec<String>) -> (r: Result<
    NodeSet,
    NodeSelectionError,
>)
    ensures
        match r {
            Ok(selected) => {
                &&& all_nodes(nodes@)
                &&& all_invoices(invoices@)
                &&& nodes@.len() + invoices@.len() > 0
                &&& selected@ == node_keys(nodes@).union(payee_keys(invoices@))
            },
            Err(NodeSelectionError::Node(e)) => refuses_node(e, nodes@),
            Err(NodeSelectionError::Invoice(e)) => {
                &&& all_nodes(nodes@)
                &&& refuses_invoice(e, invoices@)
            },
            Err(NodeSelectionError::Empty) => nodes@.len() == 0 && invoices@.len() == 0,
        },
{
    let mut selected = NodeSet::new();
    if let Err(e) = add_nodes(nodes, &mut selected) {
        return Err(NodeSelectionError::Node(e));
    }
    let payees = match read_payees(invoices) {
        Ok(payees) => payees,
        Err(e) => {
            return Err(NodeSelectionError::Invoice(e));
        },
    };
    if let Err(e) = add_nodes(&payees, &mut selected) {
        proof {
            let i = choose|i: int| #[trigger] is_first_non_node(payees@, i);
            assert(node::is_node_text(payees@[i]@));
        }
        return Err(NodeSelectionError::Node(e));
    }
    let ghost named = nodes@.map_values(|s: String| node::node_bytes(s@));
    let ghost paid = invoices@.map_values(|s: String| node::node_bytes(payee_of(s@)));
    proof {
        assert(payees@.map_values(|s: String| node::node_bytes(s@)) =~= paid);
        assert(selected@ =~= node_keys(nodes@).union(payee_keys(invoices@)));
    }
    if selected.is_empty() {
        proof {
            if nodes@.len() > 0 {
                assert(named.contains(named[0]));
                assert(selected@.contains(named[0]));
            }
            if invoices@.len() > 0 {
                assert(paid.contains(paid[0]));
                assert(selected@.contains(paid[0]));
            }
        }
        return Err(NodeSelectionError::Empty);
    }
    proof {
        if nodes@.len() + invoices@.len() == 0 {
            assert(selected@ =~= Set::<Seq<u8>>::empty());
        }
    }
    Ok(selected)
}

/// The scorer file whose entries cut a selection down.
#[derive(Debug)]
pub struct NodeScidsScoreFilter {
    pub file: String,
    pub entry_count: usize,
}

/// One channel of a selected node.
#[derive(Debug)]
pub struct NodeScidRow {
    pub scid: u64,
    pub node: String,
    pub peer: String,
    pub capacity_sats: Option<u64>,
    pub has_one_to_two_update: bool,
    pub has_two_to_one_update: bool,
}

/// The channels of selected nodes.
#[derive(Debug)]
pub struct NodeScidsReport {
    pub graph: String,
    pub graph_node_count: usize,
    pub graph_channel_count: usize,
    pub requested_node_count: usize,
    pub matched_node_count: usize,
    pub scid_count: usize,
    pub score_filter: Option<NodeScidsScoreFilter>,
    pub channels: Vec<NodeScidRow>,
}

/// The short-channel-ids that entries have.
pub open spec fn scored_scids(file: ScoreFile) -> Set<u64> {
    Seq::new(file.diagnostics@.len(), |i: int| file.diagnostics@[i].scid).to_set()
}

/// Makes a filter of a scorer file.
pub fn score_filter(path: &str, file: &ScoreFile) -> (r: (NodeScidsScoreFilter, BTreeSet<u64>))
    ensures
        r.0.file@ == path@,
        r.0.entry_count == file.diagnostics@.len(),
        r.1@ == scored_scids(*file),
{
    let ghost scids = Seq::new(file.diagnostics@.len(), |i: int| file.diagnostics@[i].scid);
    let mut scored: BTreeSet<u64> = BTreeSet::new();
    let mut i: usize = 0;
    assert(scids.take(0).to_set() =~= Set::empty());
    while i < file.diagnostics.len()
        invariant
            i <= file.diagnostics@.len(),
            scids == Seq::new(file.diagnostics@.len(), |i: int| file.diagnostics@[i].scid),
            scored@ == scids.take(i as int).to_set(),
        decreases file.diagnostics@.len() - i,
    {
        scored.insert(file.diagnostics[i].scid);
        proof {
            scids.take(i as int).lemma_push_to_set_commute(scids[i as int]);
            assert(scids.take(i + 1) =~= scids.take(i as int).push(scids[i as int]));
        }
        i = i + 1;
    }
    assert(scids.take(i as int) =~= scids);
    (
        NodeScidsScoreFilter { file: String::from_str(path), entry_count: file.diagnostics.len() },
        scored,
    )
}

/// The selected node of a channel, and its peer. Where both are selected, the first one counts.
pub open spec fn matched(channel: GraphChannel, nodes: Set<Seq<u8>>) -> Option<(NodeId, NodeId)> {
    if nodes.contains(channel.node_one@) {
        Some((channel.node_one, channel.node_two))
    } else if nodes.contains(channel.node_two@) {
        Some((channel.node_two, channel.node_one))
    } else {
        None
    }
}

/// Whether a filter lets a channel through.
pub open spec fn let_through(scid: u64, filter: Option<Set<u64>>) -> bool {
    match filter {
        Some(scids) => scids.contains(scid),
        None => true,
    }
}

/// The channels that selected nodes have, as far as a filter lets them through.
pub open spec fn selected_scids(
    channels: Map<u64, GraphChannel>,
    nodes: Set<Seq<u8>>,
    filter: Option<Set<u64>>,
) -> Set<u64> {
    channels.dom().filter(
        |scid: u64| matched(channels[scid], nodes) is Some && let_through(scid, filter),
    )
}

/// The selected nodes that have such a channel.
pub open spec fn matched_nodes(
    channels: Map<u64, GraphChannel>,
    nodes: Set<Seq<u8>>,
    filter: Option<Set<u64>>,
) -> Set<Seq<u8>> {
    selected_scids(channels, nodes, filter).map(
        |scid: u64| matched(channels[scid], nodes)->Some_0.0@,
    )
}

impl NodeScidRow {
    /// Whether the row reports a channel of a selected node.
    pub open spec fn reports(self, channel: GraphChannel, nodes: Set<Seq<u8>>) -> bool {
        &&& matched(channel, nodes) matches Some((node, peer))
        &&& self.node@ == node::node_text(node@)
        &&& self.peer@ == node::node_text(peer@)
        &&& self.capacity_sats == channel.capacity_sats
        &&& self.has_one_to_two_update == channel.one_to_two is Some
        &&& self.has_two_to_one_update == channel.two_to_one is Some
    }
}

impl NodeScidsReport {
    /// The short-channel-ids of the rows.
    pub open spec fn scids(self) -> Seq<u64> {
        Seq::new(self.channels@.len(), |i: int| self.channels@[i].scid)
    }

    /// Whether the rows are the channels that selected nodes have, by ascending
    /// short-channel-id, as far as a filter lets them through.
    pub open spec fn lists(
        self,
        channels: Map<u64, GraphChannel>,
        nodes: Set<Seq<u8>>,
        filter: Option<Set<u64>>,
    ) -> bool {
        &&& keys::strictly_ascends(self.scids())
        &&& self.scids().to_set() == selected_scids(channels, nodes, filter)
        &&& forall|i: int|
            0 <= i < self.channels@.len() ==> (#[trigger] self.channels@[i]).reports(
                channels[self.channels@[i].scid],
                nodes,
            )
        &&& self.scid_count == self.channels@.len()
        &&& self.matched_node_count == matched_nodes(channels, nodes, filter).len()
    }

    /// The report as text: a list of short-channel-ids.
    pub open spec fn text(self) -> Seq<char> {
        scid_list::scid_lines(self.scids())
    }
}

/// The short-channel-ids of a filter.
pub open spec fn filter_scids(
    score_filter: Option<(NodeScidsScoreFilter, BTreeSet<u64>)>,
) -> Option<Set<u64>> {
    match score_filter {
        Some((_, scids)) => Some(scids@),
        None => None,
    }
}

proof fn lemma_selected_step(
    channels: Map<u64, GraphChannel>,
    nodes: Set<Seq<u8>>,
    filter: Option<Set<u64>>,
    scids: Seq<u64>,
    picked: Seq<u64>,
    n: int,
)
    requires
        keys::strictly_ascends(scids),
        keys::strictly_ascends(picked),
        0 <= n < scids.len(),
        channels.contains_key(scids[n]),
        picked.to_set() == selected_scids(channels, nodes, filter).intersect(
            scids.take(n).to_set(),
        ),
    ensures
        ({
            let next = if matched(channels[scids[n]], nodes) is Some && let_through(
                scids[n],
                filter,
            ) {
                picked.push(scids[n])
            } else {
                picked
            };
            &&& keys::strictly_ascends(next)
            &&& next.to_set() == selected_scids(channels, nodes, filter).intersect(
                scids.take(n + 1).to_set(),
            )
        }),
{
    let all = selected_scids(channels, nodes, filter);
    let x = scids[n];
    assert(scids.take(n + 1) =~= scids.take(n).push(x));
    scids.take(n).lemma_push_to_set_commute(x);
    picked.lemma_push_to_set_commute(x);
    assert forall|i: int| 0 <= i < picked.len() implies #[trigger] picked[i] < x by {
        assert(picked.to_set().contains(picked[i]));
        assert(scids.take(n).contains(picked[i]));
        let k = choose|k: int| 0 <= k < n && scids.take(n)[k] == picked[i];
        assert(scids[k] < scids[n]);
    }
    if all.contains(x) {
        assert(picked.push(x).to_set() =~= all.intersect(scids.take(n + 1).to_set()));
    } else {
        assert(picked.to_set() =~= all.intersect(scids.take(n + 1).to_set()));
    }
}

/// Finds the channels of selected nodes, as far as a filter lets them through.
pub fn build_node_scids_report(
    graph_path: &str,
    graph: &NetworkGraphSnapshot,
    requested_nodes: &NodeSet,
    score_filter: Option<(NodeScidsScoreFilter, BTreeSet<u64>)>,
) -> (r: NodeScidsReport)
    ensures
        r.graph@ == graph_path@,
        r.graph_node_count == graph.node_count,
        r.graph_channel_count == graph.channels@.dom().len(),
        r.requested_node_count == requested_nodes@.len(),
        r.lists(graph.channels@, requested_nodes@, filter_scids(score_filter)),
        match score_filter {
            Some((filter, _)) => r.score_filter == Some(filter),
            None => r.score_filter is None,
        },
{
    let ghost channels = graph.channels@;
    let ghost nodes = requested_nodes@;
    let ghost filter = filter_scids(score_filter);
    let ghost key = |scid: u64| matched(channels[scid], nodes)->Some_0.0@;
    let scids = keys::keys_of(&graph.channels);
    let mut found = NodeSet::new();
    let mut rows: Vec<NodeScidRow> = Vec::new();
    let ghost mut picked: Seq<u64> = seq![];
    let mut i: usize = 0;
    proof {
        assert(scids@.take(0).to_set() =~= Set::empty());
        assert(picked.to_set() =~= selected_scids(channels, nodes, filter).intersect(
            scids@.take(0).to_set(),
        ));
        assert(found@ =~= picked.map_values(key).to_set());
    }
    while i < scids.len()
        invariant
            i <= scids@.len(),
            channels == graph.channels@,
            nodes == requested_nodes@,
            filter == filter_scids(score_filter),
            key == |scid: u64| matched(channels[scid], nodes)->Some_0.0@,
            keys::are_keys_of(scids@, channels),
            keys::strictly_ascends(picked),
            picked.to_set() == selected_scids(channels, nodes, filter).intersect(
                scids@.take(i as int).to_set(),
            ),
            found@ == picked.map_values(key).to_set(),
            rows@.len() == picked.len(),
            forall|j: int|
                0 <= j < rows@.len() ==> (#[trigger] rows@[j]).scid == picked[j]
                    && rows@[j].reports(channels[picked[j]], nodes),
        decreases scids@.len() - i,
    {
        let scid: u64 = scids[i];
        proof {
            assert(scids@.to_set().contains(scids@[i as int]));
            assert(channels.contains_key(scid));
            lemma_selected_step(channels, nodes, filter, scids@, picked, i as int);
        }
        let passes = match &score_filter {
            Some((_, scored)) => scored.contains(&scid),
            None => true,
        };
        if passes {
            if let Some(channel) = graph.channels.get(&scid) {
                let pair = if requested_nodes.contains(&channel.node_one) {
                    Some((channel.node_one, channel.node_two))
                } else if requested_nodes.contains(&channel.node_two) {
                    Some((channel.node_two, channel.node_one))
                } else {
                    None
                };
                if let Some((node, peer)) = pair {
                    found.insert(node);
                    rows.push(
                        NodeScidRow {
                            scid,
                            node: node.to_string(),
                            peer: peer.to_string(),
                            capacity_sats: channel.capacity_sats,
                            has_one_to_two_update: channel.one_to_two.is_some(),
                            has_two_to_one_update: channel.two_to_one.is_some(),
                        },
                    );
                    proof {
                        picked.map_values(key).lemma_push_to_set_commute(node@);
                        assert(picked.push(scid).map_values(key) =~= picked.map_values(key).push(
                            node@,
                        ));
                        picked = picked.push(scid);
                    }
                }
            }
        }
        i = i + 1;
    }
    proof {
        let all = selected_scids(channels, nodes, filter);
        assert(scids@.take(i as int) =~= scids@);
        assert(picked.to_set() =~= all);
        assert(found@ =~= all.map(key)) by {
            let keyed = picked.map_values(key);
            assert forall|k: Seq<u8>| #[trigger] keyed.to_set().contains(k) implies all.map(
                key,
            ).contains(k) by {
                let j = choose|j: int| 0 <= j < keyed.len() && keyed[j] == k;
                assert(picked.to_set().contains(picked[j]));
            }
            assert forall|k: Seq<u8>| #[trigger] all.map(key).contains(k) implies keyed.to_set()
                .contains(k) by {
                let scid = choose|scid: u64| all.contains(scid) && k == key(scid);
                assert(picked.to_set().contains(scid));
                let j = choose|j: int| 0 <= j < picked.len() && picked[j] == scid;
                assert(keyed[j] == k);
            }
        }
    }
    let report = NodeScidsReport {
        graph: String::from_str(graph_path),
        graph_node_count: graph.node_count,
        graph_channel_count: graph.channels.len(),
        requested_node_count: requested_nodes.len(),
        matched_node_count: found.len(),
        scid_count: rows.len(),
        score_filter: match score_filter {
            Some((filter, _)) => Some(filter),
            None => None,
        },
        channels: rows,
    };
    assert(report.scids() =~= picked);
    report
}

/// One row with a channel of a selected node.
#[derive(Debug)]
pub struct NodeScidCsvRow {
    pub scid: u64,
    pub node: String,
    pub peer: String,
    pub capacity_sats: Option<u64>,
    pub has_one_to_two_update: bool,
    pub has_two_to_one_update: bool,
}

impl vstd::std_specs::convert::FromSpecImpl<&NodeScidRow> for NodeScidCsvRow {
    open spec fn obeys_from_spec() -> bool {
        true
    }

    open spec fn from_spec(row: &NodeScidRow) -> NodeScidCsvRow {
        NodeScidCsvRow {
            scid: row.scid,
            node: row.node,
            peer: row.peer,
            capacity_sats: row.capacity_sats,
            has_one_to_two_update: row.has_one_to_two_update,
            has_two_to_one_update: row.has_two_to_one_update,
        }
    }
}

impl From<&NodeScidRow> for NodeScidCsvRow {
    fn from(row: &NodeScidRow) -> (r: NodeScidCsvRow) {
        NodeScidCsvRow {
            scid: row.scid,
            node: row.node.clone(),
            peer: row.peer.clone(),
            capacity_sats: row.capacity_sats,
            has_one_to_two_update: row.has_one_to_two_update,
            has_two_to_one_update: row.has_two_to_one_update,
        }
    }
}

/// Writes a report as a list of short-channel-ids, one on each line.
pub fn render_node_scids_text(report: &NodeScidsReport) -> (r: String)
    ensures
        r@ == report.text(),
{
    let ghost scids = report.scids();
    let mut out = String::new();
    let mut i: usize = 0;
    assert(out@ =~= scid_list::scid_lines(scids.take(0)));
    while i < report.channels.len()
        invariant
            i <= report.channels@.len(),
            scids == report.scids(),
            out@ == scid_list::scid_lines(scids.take(i as int)),
        decreases report.channels@.len() - i,
    {
        let ghost before = out@;
        push_decimal(&mut out, report.channels[i].scid);
        out.append("\n");
        proof {
            reveal_strlit("\n");
            scid_list::lemma_one_more_line(scids.take(i as int), scids[i as int]);
            assert(scids.take(i + 1) =~= scids.take(i as int).push(scids[i as int]));
            assert("\n"@ =~= seq!['\n']);
            assert(out@ =~= scid_list::scid_lines(scids.take(i + 1)));
        }
        i = i + 1;
    }
    assert(scids.take(i as int) =~= scids);
    out
}

/// The text of a report is a list of short-channel-ids that holds just the channels that the
/// selected nodes have, as far as the filter lets them through.
pub proof fn the_text_is_an_allowlist(
    report: NodeScidsReport,
    channels: Map<u64, GraphChannel>,
    nodes: Set<Seq<u8>>,
    filter: Option<Set<u64>>,
)
    requires
        report.lists(channels, nodes, filter),
    ensures
        scid_list::is_scid_list(report.text()),
        scid_list::scids_in(report.text()) == selected_scids(channels, nodes, filter),
{
    scid_list::written_lists_read_back(report.scids());
}

/// A filter takes away the channels that it does not hold, and no others.
pub proof fn a_filter_intersects(
    channels: Map<u64, GraphChannel>,
    nodes: Set<Seq<u8>>,
    filter: Set<u64>,
)
    ensures
        selected_scids(channels, nodes, Some(filter)) == selected_scids(
            channels,
            nodes,
            None,
        ).intersect(filter),
{
    assert(selected_scids(channels, nodes, Some(filter)) =~= selected_scids(
        channels,
        nodes,
        None,
    ).intersect(filter));
}

/// A selected channel is one of the graph, and it joins a selected node to a peer.
pub proof fn selected_channels_touch_selected_nodes(
    channels: Map<u64, GraphChannel>,
    nodes: Set<Seq<u8>>,
    filter: Option<Set<u64>>,
    scid: u64,
)
    ensures
        selected_scids(channels, nodes, filter).contains(scid) <==> {
            &&& channels.contains_key(scid)
            &&& nodes.contains(channels[scid].node_one@) || nodes.contains(channels[scid].node_two@)
            &&& let_through(scid, filter)
        },
{
}

/// Every matched node was requested, and more nodes select more channels.
pub proof fn matched_nodes_were_requested(
    channels: Map<u64, GraphChannel>,
    nodes: Set<Seq<u8>>,
    more: Set<Seq<u8>>,
    filter: Option<Set<u64>>,
)
    requires
        nodes.subset_of(more),
    ensures
        matched_nodes(channels, nodes, filter).subset_of(nodes),
        selected_scids(channels, nodes, filter).subset_of(selected_scids(channels, more, filter)),
{
}

/// The row of a channel names the requested node of the two, the first one where both are
/// requested, and the other one as its peer. It gives the capacity that the graph has for the
/// channel, and whether there was an update in each direction.
pub proof fn rows_tell_of_their_channels(
    row: NodeScidRow,
    channel: GraphChannel,
    nodes: Set<Seq<u8>>,
)
    requires
        row.reports(channel, nodes),
    ensures
        nodes.contains(channel.node_one@) ==> row.node@ == node::node_text(channel.node_one@)
            && row.peer@ == node::node_text(channel.node_two@),
        !nodes.contains(channel.node_one@) ==> nodes.contains(channel.node_two@) && row.node@
            == node::node_text(channel.node_two@) && row.peer@ == node::node_text(
            channel.node_one@,
        ),
        row.capacity_sats == channel.capacity_sats,
        row.has_one_to_two_update <==> channel.one_to_two is Some,
        row.has_two_to_one_update <==> channel.two_to_one is Some,
{
}

/// The rows of a report are the channels of the graph that join a requested node and that the
/// filter lets through, all of them, each once, by ascending short-channel-id.
pub proof fn reports_list_the_channels_of_the_nodes(
    report: NodeScidsReport,
    channels: Map<u64, GraphChannel>,
    nodes: Set<Seq<u8>>,
    filter: Option<Set<u64>>,
    scid: u64,
)
    requires
        report.lists(channels, nodes, filter),
    ensures
        report.scid_count == report.channels@.len(),
        forall|i: int, j: int|
            0 <= i < j < report.channels@.len() ==> (#[trigger] report.channels@[i]).scid < (
            #[trigger] report.channels@[j]).scid,
        (exists|i: int|
            0 <= i < report.channels@.len() && (#[trigger] report.channels@[i]).scid == scid) <==> {
            &&& channels.contains_key(scid)
            &&& nodes.contains(channels[scid].node_one@) || nodes.contains(channels[scid].node_two@)
            &&& filter matches Some(scored) ==> scored.contains(scid)
        },
{
    let scids = report.scids();
    assert forall|i: int, j: int| 0 <= i < j < report.channels@.len() implies (
    #[trigger] report.channels@[i]).scid < (#[trigger] report.channels@[j]).scid by {
        assert(scids[i] < scids[j]);
    }
    if exists|i: int|
        0 <= i < report.channels@.len() && (#[trigger] report.channels@[i]).scid == scid {
        let i = choose|i: int|
            0 <= i < report.channels@.len() && (#[trigger] report.channels@[i]).scid == scid;
        assert(scids[i] == scid);
        assert(scids.to_set().contains(scid));
    }
    if selected_scids(channels, nodes, filter).contains(scid) {
        assert(scids.to_set().contains(scid));
        let i = choose|i: int| 0 <= i < scids.len() && scids[i] == scid;
        assert(report.channels@[i].scid == scid);
    }
}

/// Every row of a report, with the channel that the graph has under its short-channel-id.
pub proof fn reported_rows_tell_of_the_graph(
    report: NodeScidsReport,
    channels: Map<u64, GraphChannel>,
    nodes: Set<Seq<u8>>,
    filter: Option<Set<u64>>,
    i: int,
)
    requires
        report.lists(channels, nodes, filter),
        0 <= i < report.channels@.len(),
    ensures
        channels.contains_key(report.channels@[i].scid),
        report.channels@[i].capacity_sats == channels[report.channels@[i].scid].capacity_sats,
        report.channels@[i].has_one_to_two_update
            == channels[report.channels@[i].scid].one_to_two is Some,
        report.channels@[i].has_two_to_one_update
            == channels[report.channels@[i].scid].two_to_one is Some,
        nodes.contains(channels[report.channels@[i].scid].node_one@) ==> report.channels@[i].node@
            == node::node_text(channels[report.channels@[i].scid].node_one@)
            && report.channels@[i].peer@ == node::node_text(
            channels[report.channels@[i].scid].node_two@,
        ),
        !nodes.contains(channels[report.channels@[i].scid].node_one@) ==> report.channels@[i].node@
            == node::node_text(channels[report.channels@[i].scid].node_two@)
            && report.channels@[i].peer@ == node::node_text(
            channels[report.channels@[i].scid].node_one@,
        ),
{
    let scids = report.scids();
    assert(scids[i] == report.channels@[i].scid);
    assert(scids.to_set().contains(scids[i]));
    assert(selected_scids(channels, nodes, filter).contains(scids[i]));
    assert(report.channels@[i].reports(channels[scids[i]], nodes));
}

/// A requested node is matched if and only if a channel that is let through has it as its first
/// node, or as its second one where the first one is not requested.
pub proof fn matched_nodes_have_a_channel(
    channels: Map<u64, GraphChannel>,
    nodes: Set<Seq<u8>>,
    filter: Option<Set<u64>>,
    key: Seq<u8>,
)
    ensures
        matched_nodes(channels, nodes, filter).contains(key) <==> nodes.contains(key) && exists|
            scid: u64,
        |
            {
                &&& #[trigger] channels.contains_key(scid)
                &&& filter matches Some(scored) ==> scored.contains(scid)
                &&& channels[scid].node_one@ == key || channels[scid].node_two@ == key
                    && !nodes.contains(channels[scid].node_one@)
            },
{
    let all = selected_scids(channels, nodes, filter);
    let f = |scid: u64| matched(channels[scid], nodes)->Some_0.0@;
    if matched_nodes(channels, nodes, filter).contains(key) {
        let scid = choose|scid: u64| all.contains(scid) && key == f(scid);
        assert(channels.contains_key(scid));
    }
    if nodes.contains(key) && exists|scid: u64|
        {
            &&& #[trigger] channels.contains_key(scid)
            &&& filter matches Some(scored) ==> scored.contains(scid)
            &&& channels[scid].node_one@ == key || channels[scid].node_two@ == key
                && !nodes.contains(channels[scid].node_one@)
        } {
        let scid = choose|scid: u64|
            {
                &&& #[trigger] channels.contains_key(scid)
                &&& filter matches Some(scored) ==> scored.contains(scid)
                &&& channels[scid].node_one@ == key || channels[scid].node_two@ == key
                    && !nodes.contains(channels[scid].node_one@)
            };
        assert(all.contains(scid));
        assert(f(scid) == key);
    }
}

/// The row for a table says what the row of the report says.
pub proof fn csv_rows_say_what_rows_say(row: &NodeScidRow, csv: NodeScidCsvRow)
    requires
        call_ensures(<NodeScidCsvRow as From<&NodeScidRow>>::from, (row,), csv),
    ensures
        csv.scid == row.scid,
        csv.node@ == row.node@,
        csv.peer@ == row.peer@,
        csv.capacity_sats == row.capacity_sats,
        csv.has_one_to_two_update == row.has_one_to_two_update,
        csv.has_two_to_one_update == row.has_two_to_one_update,
{
}

/// A filter is made of the short-channel-ids that a scorer file has entries for, and lets just
/// these through. Without a filter every channel is let through.
pub proof fn filters_hold_what_is_scored(file: ScoreFile, scid: u64)
    ensures
        scored_scids(file).contains(scid) <==> exists|i: int|
            0 <= i < file.diagnostics@.len() && (#[trigger] file.diagnostics@[i]).scid == scid,
        let_through(scid, Some(scored_scids(file))) <==> scored_scids(file).contains(scid),
        let_through(scid, None),
{
    let scids = Seq::new(file.diagnostics@.len(), |i: int| file.diagnostics@[i].scid);
    if scored_scids(file).contains(scid) {
        let i = choose|i: int| 0 <= i < scids.len() && scids[i] == scid;
        assert(file.diagnostics@[i].scid == scid);
    }
    if exists|i: int|
        0 <= i < file.diagnostics@.len() && (#[trigger] file.diagnostics@[i]).scid == scid {
        let i = choose|i: int|
            0 <= i < file.diagnostics@.len() && (#[trigger] file.diagnostics@[i]).scid == scid;
        assert(scids[i] == scid);
    }
}

/// A filter that comes with a report on its file is the set that stands beside the report.
pub proof fn filters_are_taken_as_they_are(
    score_filter: Option<(NodeScidsScoreFilter, BTreeSet<u64>)>,
)
    ensures
        score_filter is None ==> filter_scids(score_filter) is None,
        score_filter matches Some(both) ==> filter_scids(score_filter) == Some(both.1@),
{
}

/// The nodes that are selected: those that a text names, and the payees of the invoices.
pub proof fn selected_nodes_are_named_or_paid(
    nodes: Seq<String>,
    invoices: Seq<String>,
    key: Seq<u8>,
)
    ensures
        node_keys(nodes).contains(key) <==> exists|i: int|
            0 <= i < nodes.len() && node::node_bytes((#[trigger] nodes[i])@) == key,
        payee_keys(invoices).contains(key) <==> exists|i: int|
            0 <= i < invoices.len() && node::node_bytes(payee_of((#[trigger] invoices[i])@)) == key,
{
    let named = nodes.map_values(|s: String| node::node_bytes(s@));
    let paid = invoices.map_values(|s: String| node::node_bytes(payee_of(s@)));
    if node_keys(nodes).contains(key) {
        let i = choose|i: int| 0 <= i < named.len() && named[i] == key;
        assert(node::node_bytes(nodes[i]@) == key);
    }
    if payee_keys(invoices).contains(key) {
        let i = choose|i: int| 0 <= i < paid.len() && paid[i] == key;
        assert(node::node_bytes(payee_of(invoices[i]@)) == key);
    }
    assert forall|i: int|
        0 <= i < nodes.len() && node::node_bytes(
            (#[trigger] nodes[i])@,
        ) == key implies node_keys(nodes).contains(key) by {
        assert(named[i] == key);
    }
    assert forall|i: int|
        0 <= i < invoices.len() && node::node_bytes(
            payee_of((#[trigger] invoices[i])@),
        ) == key implies payee_keys(invoices).contains(key) by {
        assert(paid[i] == key);
    }
}

/// The message on a selection names the text that is no node, gives the cause against an invoice,
/// or says what is missing.
pub proof fn messages_say_what_is_wrong(e: NodeSelectionError)
    ensures
        e matches NodeSelectionError::Node(cause) ==> e.message() == text::joined(
            seq!["parse node pubkey '"@, cause.text@, "'"@],
        ),
        e matches NodeSelectionError::Invoice(cause) ==> e.message() == text::joined(
            seq!["parse bolt11 invoice: "@, invoice::invoice_error_words(cause.cause)],
        ),
        e is Empty ==> e.message() == "node-scids requires at least one --node or --invoice"@,
{
    match e {
        NodeSelectionError::Node(cause) => {
            reveal_with_fuel(text::joined, 4);
            assert(e.message() =~= text::joined(
                seq!["parse node pubkey '"@, cause.text@, "'"@],
            ));
        },
        NodeSelectionError::Invoice(cause) => {
            invoice::messages_give_the_cause(cause);
        },
        NodeSelectionError::Empty => {},
    }
}

/// A refusal of a node speaks of a text that is no public key, with every text before it being
/// one, and gives the cause against that text.
pub proof fn the_first_bad_node_is_refused(e: NodeTextError, texts: Seq<String>)
    requires
        refuses_node(e, texts),
    ensures
        exists|i: int|
            {
                &&& 0 <= i < texts.len()
                &&& (#[trigger] texts[i])@ == e.text@
                &&& !node::is_node_text(texts[i]@)
                &&& e.cause == node::node_text_error(texts[i]@)
                &&& forall|k: int| 0 <= k < i ==> node::is_node_text((#[trigger] texts[k])@)
            },
{
    let i = choose|i: int|
        {
            &&& #[trigger] is_first_non_node(texts, i)
            &&& e.text@ == texts[i]@
            &&& e.cause == node::node_text_error(texts[i]@)
        };
    assert forall|k: int| 0 <= k < i implies node::is_node_text((#[trigger] texts[k])@) by {
        assert(texts.take(i)[k] == texts[k]);
    }
    assert(texts[i]@ == e.text@);
}

/// A refusal of an invoice speaks of a text that holds none, with every text before it holding
/// one, and gives the cause against that text.
pub proof fn the_first_bad_invoice_is_refused(e: InvoiceError, invoices: Seq<String>)
    requires
        refuses_invoice(e, invoices),
    ensures
        exists|i: int|
            {
                &&& 0 <= i < invoices.len()
                &&& invoice::parsed_invoice(
                    invoice::bare_invoice((#[trigger] invoices[i])@),
                ) matches Err(cause)
                &&& cause == e.cause
                &&& forall|k: int|
                    0 <= k < i ==> invoice::parsed_invoice(
                        invoice::bare_invoice((#[trigger] invoices[k])@),
                    ) is Ok
            },
{
    let i = choose|i: int|
        {
            &&& #[trigger] is_first_non_invoice(invoices, i)
            &&& invoice::parsed_invoice(invoice::bare_invoice(invoices[i]@)) matches Err(cause)
            &&& e.cause == cause
        };
    assert forall|k: int| 0 <= k < i implies invoice::parsed_invoice(
        invoice::bare_invoice((#[trigger] invoices[k])@),
    ) is Ok by {
        assert(invoices.take(i)[k] == invoices[k]);
        assert(is_invoice(invoices.take(i)[k]@));
    }
    assert(!is_invoice(invoices[i]@));
}

/// The text of a report is empty without rows, and every further row adds its short-channel-id in
/// decimal and a line feed.
pub proof fn every_row_adds_its_scid(report: NodeScidsReport, longer: NodeScidsReport)
    requires
        longer.channels@.len() == report.channels@.len() + 1,
        longer.channels@.drop_last() == report.channels@,
    ensures
        report.channels@.len() == 0 ==> report.text() == Seq::<char>::empty(),
        longer.text() == report.text() + text::decimal(longer.channels@.last().scid as nat) + seq![
            '\n',
        ],
{
    assert forall|i: int| 0 <= i < report.scids().len() implies longer.scids()[i]
        == report.scids()[i] by {
        assert(longer.channels@.drop_last()[i] == longer.channels@[i]);
    }
    assert(longer.scids() =~= report.scids().push(longer.channels@.last().scid));
    scid_list::lemma_one_more_line(report.scids(), longer.channels@.last().scid);
    if report.channels@.len() == 0 {
        assert(report.text() =~= Seq::<char>::empty());
    }
}

/// A text counts as an invoice if what it holds without white space and scheme is read as one, and
/// its payee is the payee of that.
pub proof fn payees_are_those_of_the_bare_invoices(s: Seq<char>)
    ensures
        invoice::parsed_invoice(invoice::bare_invoice(s)) matches Ok(read) ==> is_invoice(s)
            && payee_of(s) == invoice::invoice_payee(read),
        invoice::parsed_invoice(invoice::bare_invoice(s)) is Err ==> !is_invoice(s),
{
}

} // verus!
