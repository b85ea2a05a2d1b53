//! Nodes of the network, by their public keys.
use lightning::bitcoin::hex::parse::HexToArrayError;
use std::str::FromStr;
use vstd::prelude::*;

verus! {

/// The public key of a node in compressed form. It need not be a point of the curve.
#[derive(Clone, Copy, Debug)]
pub struct NodeId {
    pub bytes: [u8; 33],
}

impl View for NodeId {
    type V = Seq<u8>;

    open spec fn view(&self) -> Seq<u8> {
        self.bytes@
    }
}

/// Whether a character is a hexadecimal digit, of either case.
pub open spec fn is_hex_digit(c: char) -> bool {
    '0' <= c <= '9' || 'a' <= c <= 'f' || 'A' <= c <= 'F'
}

/// The value of a hexadecimal digit.
pub open spec fn hex_value(c: char) -> nat {
    if c <= '9' {
        (c as nat - '0' as nat) as nat
    } else if c <= 'F' {
        (c as nat - 'A' as nat + 10) as nat
    } else {
        (c as nat - 'a' as nat + 10) as nat
    }
}

/// The lower-case hexadecimal digit of a value.
pub open spec fn hex_digit(v: nat) -> char {
    if v < 10 {
        ('0' as nat + v) as char
    } else {
        ('a' as nat + v - 10) as char
    }
}

/// Whether a text is the public key of a node: two hexadecimal digits for each byte.
pub open spec fn is_node_text(s: Seq<char>) -> bool {
    &&& s.len() == 66
    &&& forall|i: int| 0 <= i < s.len() ==> is_hex_digit(#[trigger] s[i])
}

/// The bytes that hexadecimal digits stand for, the first digit of two being the higher one.
pub open spec fn node_bytes(s: Seq<char>) -> Seq<u8> {
    Seq::new(s.len() / 2, |i: int| (16 * hex_value(s[2 * i]) + hex_value(s[2 * i + 1])) as u8)
}

/// Bytes in lower-case hexadecimal digits.
pub open spec fn node_text(bytes: Seq<u8>) -> Seq<char> {
    Seq::new(
        2 * bytes.len(),
        |i: int|
            hex_digit(
                (if i % 2 == 0 {
                    bytes[i / 2] / 16
                } else {
                    bytes[i / 2] % 16
                }) as nat,
            ),
    )
}

/// The error type of hexadecimal digits that are no array.
#[verifier::external_type_specification]
#[verifier::external_body]
pub struct ExHexToArrayError(HexToArrayError);

/// The error that `lightning` gives for a text that is no public key of a node.
pub uninterp spec fn node_text_error(s: Seq<char>) -> HexToArrayError;

/// Calls `FromStr::from_str` of `lightning::routing::gossip::NodeId`. It takes 66 hexadecimal
/// digits of either case, two for each byte, and refuses every other text with an error that
/// depends on the text alone.
#[verifier::external_body]
fn node_id_from_str(s: &str) -> (r: Result<NodeId, HexToArrayError>)
    ensures
        match r {
            Ok(node) => is_node_text(s@) && node@ == node_bytes(s@),
            Err(e) => !is_node_text(s@) && e == node_text_error(s@),
        },
{
    let node = lightning::routing::gossip::NodeId::from_str(s)?;
    Ok(NodeId { bytes: *node.as_array() })
}

/// Calls the `Display` of `lightning::routing::gossip::NodeId`, which writes every byte as two
/// lower-case hexadecimal digits. The node comes from `NodeId::from_slice`, which takes any 33
/// bytes as they are.
#[verifier::external_body]
fn node_id_text(bytes: &[u8; 33]) -> (r: String)
    ensures
        r@ == node_text(bytes@),
{
    let node = lightning::routing::gossip::NodeId::from_slice(bytes);
    node.expect("a node id has 33 bytes").to_string()
}

impl NodeId {
    /// Reads a public key in hexadecimal digits.
    pub fn from_str(s: &str) -> (r: Result<NodeId, HexToArrayError>)
        ensures
            match r {
                Ok(node) => is_node_text(s@) && node@ == node_bytes(s@),
                Err(e) => !is_node_text(s@) && e == node_text_error(s@),
            },
    {
        node_id_from_str(s)
    }

    /// Writes the public key in lower-case hexadecimal digits.
    pub fn to_string(&self) -> (r: String)
        ensures
            r@ == node_text(self@),
    {
        node_id_text(&self.bytes)
    }

    /// Whether two nodes have the same public key.
    pub fn same(&self, other: &NodeId) -> (r: bool)
        ensures
            r == (self@ == other@),
    {
        let mut i: usize = 0;
        while i < 33
            invariant
                i <= 33,
                forall|k: int| 0 <= k < i ==> self@[k] == other@[k],
            decreases 33 - i,
        {
            if self.bytes[i] != other.bytes[i] {
                assert(self@[i as int] != other@[i as int]);
                return false;
            }
            i = i + 1;
        }
        assert(self@ =~= other@);
        true
    }
}

/// What a node is written as reads back as that node.
pub proof fn written_nodes_read_back(bytes: Seq<u8>)
    requires
        bytes.len() == 33,
    ensures
        is_node_text(node_text(bytes)),
        node_bytes(node_text(bytes)) == bytes,
{
    let s = node_text(bytes);
    assert(node_bytes(s) =~= bytes) by {
        assert forall|i: int| 0 <= i < 33 implies #[trigger] node_bytes(s)[i] == bytes[i] by {
            assert((2 * i) / 2 == i && (2 * i + 1) / 2 == i);
            assert((2 * i) % 2 == 0 && (2 * i + 1) % 2 == 1);
        }
    }
}

/// A text that names a node is written back in lower case: the digits have the same values.
pub proof fn read_nodes_write_back(s: Seq<char>)
    requires
        is_node_text(s),
    ensures
        node_text(node_bytes(s)).len() == s.len(),
        forall|i: int|
            0 <= i < s.len() ==> hex_value(#[trigger] node_text(node_bytes(s))[i]) == hex_value(
                s[i],
            ) && !('A' <= node_text(node_bytes(s))[i] <= 'F'),
{
    assert forall|i: int| 0 <= i < s.len() implies hex_value(
        #[trigger] node_text(node_bytes(s))[i],
    ) == hex_value(s[i]) && !('A' <= node_text(node_bytes(s))[i] <= 'F') by {
        let k = i / 2;
        assert(0 <= k < 33);
        assert(is_hex_digit(s[2 * k]) && is_hex_digit(s[2 * k + 1]));
        assert(is_hex_digit(s[i]));
        let hi = hex_value(s[2 * k]);
        let lo = hex_value(s[2 * k + 1]);
        assert(node_bytes(s)[k] == 16 * hi + lo);
        assert((16 * hi + lo) / 16 == hi && (16 * hi + lo) % 16 == lo);
    }
}

/// Nodes, each of them once.
#[derive(Debug)]
pub struct NodeSet {
    nodes: Vec<NodeId>,
}

/// The public keys of nodes.
spec fn keys_of_nodes(nodes: Seq<NodeId>) -> Seq<Seq<u8>> {
    nodes.map_values(|node: NodeId| node@)
}

impl View for NodeSet {
    type V = Set<Seq<u8>>;

    closed spec fn view(&self) -> Set<Seq<u8>> {
        keys_of_nodes(self.nodes@).to_set()
    }
}

impl NodeSet {
    #[verifier::type_invariant]
    spec fn distinct(self) -> bool {
        keys_of_nodes(self.nodes@).no_duplicates()
    }

    /// A set without nodes.
    pub fn new() -> (r: NodeSet)
        ensures
            r@ == Set::<Seq<u8>>::empty(),
    {
        let r = NodeSet { nodes: Vec::new() };
        assert(r@ =~= Set::<Seq<u8>>::empty());
        r
    }

    /// Whether a node is in the set.
    pub fn contains(&self, node: &NodeId) -> (r: bool)
        ensures
            r == self@.contains(node@),
    {
        let ghost keys = keys_of_nodes(self.nodes@);
        let mut i: usize = 0;
        while i < self.nodes.len()
            invariant
                i <= self.nodes@.len(),
                keys == keys_of_nodes(self.nodes@),
                forall|k: int| 0 <= k < i ==> #[trigger] keys[k] != node@,
            decreases self.nodes@.len() - i,
        {
            assert(keys[i as int] == self.nodes@[i as int]@);
            if self.nodes[i].same(node) {
                return true;
            }
            i = i + 1;
        }
        false
    }

    /// Adds a node, unless it is there.
    pub fn insert(&mut self, node: NodeId)
        ensures
            final(self)@ == old(self)@.insert(node@),
    {
        if !self.contains(&node) {
            proof {
                use_type_invariant(&*self);
            }
            let ghost before = self.nodes@;
            let mut nodes: Vec<NodeId> = Vec::new();
            std::mem::swap(&mut nodes, &mut self.nodes);
            nodes.push(node);
            proof {
                let keys = keys_of_nodes(before);
                assert(keys_of_nodes(nodes@) =~= keys.push(node@));
                keys.lemma_push_to_set_commute(node@);
            }
            self.nodes = nodes;
        } else {
            assert(self@ =~= self@.insert(node@));
        }
    }

    /// The number of nodes.
    pub fn len(&self) -> (r: usize)
        ensures
            r == self@.len(),
            self@.finite(),
    {
        proof {
            use_type_invariant(self);
            keys_of_nodes(self.nodes@).unique_seq_to_set();
        }
        self.nodes.len()
    }

    /// Whether there is no node.
    pub fn is_empty(&self) -> (r: bool)
        ensures
            r == (self@ == Set::<Seq<u8>>::empty()),
    {
        let empty = self.nodes.len() == 0;
        proof {
            let keys = keys_of_nodes(self.nodes@);
            if empty {
                assert(self@ =~= Set::<Seq<u8>>::empty());
            } else {
                assert(keys[0] == self.nodes@[0]@);
                assert(keys.to_set().contains(keys[0]));
            }
        }
        empty
    }
}

} // verus!
