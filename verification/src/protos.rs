//! Messages and enumerations of the Rack Manager API, with their protobuf
//! encoding and decoding.
use vstd::prelude::*;
use vstd::utf8::*;

use crate::message::{
    decode_string, encode_string, lemma_merge_delimited_field, lemma_merge_skipped_field,
    lemma_message_step, lemma_skip_delimited_field, lemma_skip_varint_field, lemma_string_step,
    merge_fields, message_step, optional_field, repeated_field, string_field, string_step,
    unknown_step,
};
use crate::wire::{
    decode_delimited, decode_key, delimited_field, encode_delimited, key_bytes, lemma_varint_len_u64,
    skip_field,
    varint_bytes, RECURSION_LIMIT, WIRE_LEN, WIRE_VARINT,
};

verus! {

/// A message could not be decoded from the given bytes.
#[derive(Debug, PartialEq, Eq, Clone, Copy)]
pub struct DecodeError;

// ---------------------------------------------------------------------------
// NetworkInterface

/// A network interface of a node.
#[derive(Debug, Clone, PartialEq, Eq)]
pub struct NetworkInterface {
    /// Field 1.
    pub ip_address: String,
}

/// The content of a `NetworkInterface`.
pub struct NetworkInterfaceView {
    pub ip_address: Seq<char>,
}

impl NetworkInterfaceView {
    /// The message with every field at its default.
    pub open spec fn empty() -> Self {
        NetworkInterfaceView { ip_address: Seq::empty() }
    }
}

impl View for NetworkInterface {
    type V = NetworkInterfaceView;

    open spec fn view(&self) -> NetworkInterfaceView {
        NetworkInterfaceView { ip_address: self.ip_address@ }
    }
}

impl Default for NetworkInterface {
    fn default() -> (res: Self)
        ensures
            res@ == NetworkInterfaceView::empty(),
    {
        NetworkInterface { ip_address: String::new() }
    }
}

/// The encoding of a `NetworkInterface`.
pub open spec fn network_interface_bytes(m: NetworkInterfaceView) -> Seq<u8> {
    string_field(1, m.ip_address)
}

/// Reads one field of a `NetworkInterface`.
pub open spec fn network_interface_step(
    m: NetworkInterfaceView,
    tag: u32,
    wire_type: u8,
    rest: Seq<u8>,
    depth: nat,
) -> Option<(NetworkInterfaceView, nat)> {
    if tag == 1 {
        match string_step(wire_type, rest) {
            Some((v, used)) => Some((NetworkInterfaceView { ip_address: v }, used)),
            None => None,
        }
    } else {
        unknown_step(m, tag, wire_type, rest, depth)
    }
}

/// `m` with the fields encoded in `s` merged into it.
pub open spec fn merge_network_interface(m: NetworkInterfaceView, s: Seq<u8>, depth: nat) -> Option<
    NetworkInterfaceView,
> {
    merge_fields(
        m,
        s,
        depth,
        |m: NetworkInterfaceView, t: u32, w: u8, r: Seq<u8>, d: nat|
            network_interface_step(m, t, w, r, d),
    )
}

/// Encoding then decoding gives the message back.
pub proof fn lemma_network_interface_roundtrip(m: NetworkInterfaceView, rest: Seq<u8>, depth: nat)
    requires
        network_interface_bytes(m).len() <= u64::MAX,
    ensures
        merge_network_interface(NetworkInterfaceView::empty(), network_interface_bytes(m) + rest, depth)
            == merge_network_interface(m, rest, depth),
{
    if m.ip_address.len() == 0 {
        assert(network_interface_bytes(m) + rest =~= rest);
        assert(m.ip_address =~= Seq::<char>::empty());
    } else {
        let p = encode_utf8(m.ip_address);
        lemma_string_step(m.ip_address, rest);
        lemma_merge_delimited_field(
            NetworkInterfaceView::empty(),
            m,
            1,
            p,
            rest,
            depth,
            |m: NetworkInterfaceView, t: u32, w: u8, r: Seq<u8>, d: nat|
                network_interface_step(m, t, w, r, d),
        );
    }
}

impl NetworkInterface {
    /// Appends the encoding of the message to `out`.
    pub fn encode_raw(&self, out: &mut Vec<u8>)
        ensures
            final(out)@ == old(out)@ + network_interface_bytes(self@),
    {
        encode_string(1, &self.ip_address, out);
    }

    /// Merges the fields encoded in `buf[pos..end]` into the message.
    #[verifier::spinoff_prover]
    #[verifier::rlimit(40)]
    pub fn merge_from(&mut self, buf: &[u8], pos: usize, end: usize, depth: u32) -> (ok: bool)
        requires
            pos <= end <= buf@.len(),
        ensures
            ok <==> merge_network_interface(old(self)@, buf@.subrange(pos as int, end as int), depth as nat)
                is Some,
            ok ==> merge_network_interface(old(self)@, buf@.subrange(pos as int, end as int), depth as nat)
                == Some(final(self)@),
    {
        let mut p = pos;
        while p < end
            invariant
                pos <= p <= end <= buf@.len(),
                merge_network_interface(old(self)@, buf@.subrange(pos as int, end as int), depth as nat)
                    == merge_network_interface(self@, buf@.subrange(p as int, end as int), depth as nat),
            decreases end - p,
        {
            let ghost s = buf@.subrange(p as int, end as int);
            let (tag, wire_type, n) = match decode_key(buf, p, end) {
                Some(k) => k,
                None => return false,
            };
            let q = p + n;
            assert(s.skip(n as int) =~= buf@.subrange(q as int, end as int));
            let used = if tag == 1 {
                match decode_string(wire_type, buf, q, end) {
                    Some((value, used)) => {
                        self.ip_address = value;
                        used
                    },
                    None => return false,
                }
            } else {
                match skip_field(wire_type, tag, buf, q, end, depth) {
                    Some(used) => used,
                    None => return false,
                }
            };
            assert(s.skip((n + used) as int) =~= buf@.subrange((q + used) as int, end as int));
            p = q + used;
        }
        true
    }
}

// ---------------------------------------------------------------------------
// Endpoint

/// An endpoint of a node: the network interface it is reached through.
#[derive(Debug, Clone, PartialEq, Eq)]
pub struct Endpoint {
    /// Field 1.
    pub interface: Option<NetworkInterface>,
}

/// The content of an `Endpoint`.
pub struct EndpointView {
    pub interface: Option<NetworkInterfaceView>,
}

impl EndpointView {
    /// The message with every field at its default.
    pub open spec fn empty() -> Self {
        EndpointView { interface: None }
    }
}

impl View for Endpoint {
    type V = EndpointView;

    open spec fn view(&self) -> EndpointView {
        EndpointView {
            interface: match self.interface {
                Some(i) => Some(i@),
                None => None,
            },
        }
    }
}

impl Default for Endpoint {
    fn default() -> (res: Self)
        ensures
            res@ == EndpointView::empty(),
    {
        Endpoint { interface: None }
    }
}

/// The encoding of an `Endpoint`.
pub open spec fn endpoint_bytes(m: EndpointView) -> Seq<u8> {
    optional_field(1, m.interface, |i: NetworkInterfaceView| network_interface_bytes(i))
}

/// Reads one field of an `Endpoint`; a repeated nested message is merged
/// into the one already present.
pub open spec fn endpoint_step(m: EndpointView, tag: u32, wire_type: u8, rest: Seq<u8>, depth: nat) -> Option<
    (EndpointView, nat),
> {
    if tag == 1 {
        let into = match m.interface {
            Some(i) => i,
            None => NetworkInterfaceView::empty(),
        };
        match message_step(
            wire_type,
            rest,
            depth,
            into,
            |i: NetworkInterfaceView, s: Seq<u8>, d: nat| merge_network_interface(i, s, d),
        ) {
            Some((i, used)) => Some((EndpointView { interface: Some(i) }, used)),
            None => None,
        }
    } else {
        unknown_step(m, tag, wire_type, rest, depth)
    }
}

/// `m` with the fields encoded in `s` merged into it.
pub open spec fn merge_endpoint(m: EndpointView, s: Seq<u8>, depth: nat) -> Option<EndpointView> {
    merge_fields(
        m,
        s,
        depth,
        |m: EndpointView, t: u32, w: u8, r: Seq<u8>, d: nat| endpoint_step(m, t, w, r, d),
    )
}

/// Encoding then decoding gives the message back.
pub proof fn lemma_endpoint_roundtrip(m: EndpointView, rest: Seq<u8>, depth: nat)
    requires
        endpoint_bytes(m).len() <= u64::MAX,
        depth >= 1,
    ensures
        merge_endpoint(EndpointView::empty(), endpoint_bytes(m) + rest, depth) == merge_endpoint(
            m,
            rest,
            depth,
        ),
{
    match m.interface {
        None => {
            assert(endpoint_bytes(m) + rest =~= rest);
        },
        Some(i) => {
            let p = network_interface_bytes(i);
            lemma_network_interface_roundtrip(i, Seq::empty(), (depth - 1) as nat);
            assert(p + Seq::<u8>::empty() =~= p);
            lemma_message_step(
                p,
                rest,
                depth,
                NetworkInterfaceView::empty(),
                i,
                |i: NetworkInterfaceView, s: Seq<u8>, d: nat| merge_network_interface(i, s, d),
            );
            lemma_merge_delimited_field(
                EndpointView::empty(),
                m,
                1,
                p,
                rest,
                depth,
                |m: EndpointView, t: u32, w: u8, r: Seq<u8>, d: nat| endpoint_step(m, t, w, r, d),
            );
        },
    }
}

impl Endpoint {
    /// Appends the encoding of the message to `out`.
    pub fn encode_raw(&self, out: &mut Vec<u8>)
        ensures
            final(out)@ == old(out)@ + endpoint_bytes(self@),
    {
        match &self.interface {
            Some(i) => {
                let mut tmp: Vec<u8> = Vec::new();
                i.encode_raw(&mut tmp);
                encode_delimited(1, tmp.as_slice(), out);
            },
            None => {
                assert(final(out)@ =~= old(out)@ + endpoint_bytes(self@));
            },
        }
    }

    /// Merges the fields encoded in `buf[pos..end]` into the message.
    #[verifier::spinoff_prover]
    #[verifier::rlimit(40)]
    pub fn merge_from(&mut self, buf: &[u8], pos: usize, end: usize, depth: u32) -> (ok: bool)
        requires
            pos <= end <= buf@.len(),
        ensures
            ok <==> merge_endpoint(old(self)@, buf@.subrange(pos as int, end as int), depth as nat)
                is Some,
            ok ==> merge_endpoint(old(self)@, buf@.subrange(pos as int, end as int), depth as nat)
                == Some(final(self)@),
    {
        let mut p = pos;
        while p < end
            invariant
                pos <= p <= end <= buf@.len(),
                merge_endpoint(old(self)@, buf@.subrange(pos as int, end as int), depth as nat)
                    == merge_endpoint(self@, buf@.subrange(p as int, end as int), depth as nat),
            decreases end - p,
        {
            let ghost s = buf@.subrange(p as int, end as int);
            let (tag, wire_type, n) = match decode_key(buf, p, end) {
                Some(k) => k,
                None => return false,
            };
            let q = p + n;
            assert(s.skip(n as int) =~= buf@.subrange(q as int, end as int));
            let used = if tag == 1 {
                if wire_type != WIRE_LEN || depth == 0 {
                    return false;
                }
                match decode_delimited(buf, q, end) {
                    Some((start, stop)) => {
                        let mut inner = match self.interface.take() {
                            Some(i) => i,
                            None => NetworkInterface::default(),
                        };
                        if !inner.merge_from(buf, start, stop, depth - 1) {
                            return false;
                        }
                        self.interface = Some(inner);
                        stop - q
                    },
                    None => return false,
                }
            } else {
                match skip_field(wire_type, tag, buf, q, end, depth) {
                    Some(used) => used,
                    None => return false,
                }
            };
            assert(s.skip((n + used) as int) =~= buf@.subrange((q + used) as int, end as int));
            p = q + used;
        }
        true
    }
}

// ---------------------------------------------------------------------------
// NodeInfo

/// A node managed by the Rack Manager.
#[derive(Debug, Clone, PartialEq, Eq)]
pub struct NodeInfo {
    /// Field 1.
    pub node_id: String,
    /// Field 7: further endpoints of the node's host.
    pub additional_host_endpoints: Vec<Endpoint>,
}

/// The content of a `NodeInfo`.
pub struct NodeInfoView {
    pub node_id: Seq<char>,
    pub additional_host_endpoints: Seq<EndpointView>,
}

impl NodeInfoView {
    /// The message with every field at its default.
    pub open spec fn empty() -> Self {
        NodeInfoView { node_id: Seq::empty(), additional_host_endpoints: Seq::empty() }
    }
}

impl View for NodeInfo {
    type V = NodeInfoView;

    open spec fn view(&self) -> NodeInfoView {
        NodeInfoView {
            node_id: self.node_id@,
            additional_host_endpoints: self.additional_host_endpoints@.map_values(|e: Endpoint| e@),
        }
    }
}

impl Default for NodeInfo {
    fn default() -> (res: Self)
        ensures
            res@ == NodeInfoView::empty(),
    {
        let res = NodeInfo { node_id: String::new(), additional_host_endpoints: Vec::new() };
        assert(res@.additional_host_endpoints =~= Seq::<EndpointView>::empty());
        res
    }
}

/// The encoding of a `NodeInfo`.
pub open spec fn node_info_bytes(m: NodeInfoView) -> Seq<u8> {
    string_field(1, m.node_id) + repeated_field(
        7,
        m.additional_host_endpoints,
        |e: EndpointView| endpoint_bytes(e),
    )
}

/// Reads one field of a `NodeInfo`.
pub open spec fn node_info_step(m: NodeInfoView, tag: u32, wire_type: u8, rest: Seq<u8>, depth: nat) -> Option<
    (NodeInfoView, nat),
> {
    if tag == 1 {
        match string_step(wire_type, rest) {
            Some((v, used)) => Some((NodeInfoView { node_id: v, ..m }, used)),
            None => None,
        }
    } else if tag == 7 {
        match message_step(
            wire_type,
            rest,
            depth,
            EndpointView::empty(),
            |e: EndpointView, s: Seq<u8>, d: nat| merge_endpoint(e, s, d),
        ) {
            Some((e, used)) => Some(
                (
                    NodeInfoView {
                        additional_host_endpoints: m.additional_host_endpoints.push(e),
                        ..m
                    },
                    used,
                ),
            ),
            None => None,
        }
    } else {
        unknown_step(m, tag, wire_type, rest, depth)
    }
}

/// `m` with the fields encoded in `s` merged into it.
pub open spec fn merge_node_info(m: NodeInfoView, s: Seq<u8>, depth: nat) -> Option<NodeInfoView> {
    merge_fields(
        m,
        s,
        depth,
        |m: NodeInfoView, t: u32, w: u8, r: Seq<u8>, d: nat| node_info_step(m, t, w, r, d),
    )
}

proof fn lemma_node_info_endpoints(
    m: NodeInfoView,
    es: Seq<EndpointView>,
    rest: Seq<u8>,
    depth: nat,
)
    requires
        repeated_field(7, es, |e: EndpointView| endpoint_bytes(e)).len() <= u64::MAX,
        depth >= 2,
    ensures
        merge_node_info(m, repeated_field(7, es, |e: EndpointView| endpoint_bytes(e)) + rest, depth)
            == merge_node_info(
            NodeInfoView { additional_host_endpoints: m.additional_host_endpoints + es, ..m },
            rest,
            depth,
        ),
    decreases es.len(),
{
    let f = |e: EndpointView| endpoint_bytes(e);
    if es.len() == 0 {
        assert(repeated_field(7, es, f) + rest =~= rest);
        assert(m.additional_host_endpoints + es =~= m.additional_host_endpoints);
    } else {
        let init = es.drop_last();
        let last = es.last();
        let p = endpoint_bytes(last);
        let field = delimited_field(7, p);
        assert(repeated_field(7, es, f) + rest =~= repeated_field(7, init, f) + (field + rest));
        lemma_node_info_endpoints(m, init, field + rest, depth);
        let m1 = NodeInfoView { additional_host_endpoints: m.additional_host_endpoints + init, ..m };
        lemma_endpoint_roundtrip(last, Seq::empty(), (depth - 1) as nat);
        assert(p + Seq::<u8>::empty() =~= p);
        lemma_message_step(
            p,
            rest,
            depth,
            EndpointView::empty(),
            last,
            |e: EndpointView, s: Seq<u8>, d: nat| merge_endpoint(e, s, d),
        );
        lemma_merge_delimited_field(
            m1,
            NodeInfoView { additional_host_endpoints: m1.additional_host_endpoints.push(last), ..m1 },
            7,
            p,
            rest,
            depth,
            |m: NodeInfoView, t: u32, w: u8, r: Seq<u8>, d: nat| node_info_step(m, t, w, r, d),
        );
        assert(m1.additional_host_endpoints.push(last) =~= m.additional_host_endpoints + es);
    }
}

/// Encoding then decoding gives the message back.
pub proof fn lemma_node_info_roundtrip(m: NodeInfoView, rest: Seq<u8>, depth: nat)
    requires
        node_info_bytes(m).len() <= u64::MAX,
        depth >= 2,
    ensures
        merge_node_info(NodeInfoView::empty(), node_info_bytes(m) + rest, depth) == merge_node_info(
            m,
            rest,
            depth,
        ),
{
    let f = |e: EndpointView| endpoint_bytes(e);
    let reps = repeated_field(7, m.additional_host_endpoints, f);
    let e0 = NodeInfoView::empty();
    let m1 = NodeInfoView { node_id: m.node_id, additional_host_endpoints: Seq::empty() };
    if m.node_id.len() == 0 {
        assert(node_info_bytes(m) + rest =~= reps + rest);
        assert(m.node_id =~= Seq::<char>::empty());
        assert(e0 == m1);
    } else {
        let p = encode_utf8(m.node_id);
        assert(node_info_bytes(m) + rest =~= delimited_field(1, p) + (reps + rest));
        lemma_string_step(m.node_id, reps + rest);
        lemma_merge_delimited_field(
            e0,
            m1,
            1,
            p,
            reps + rest,
            depth,
            |m: NodeInfoView, t: u32, w: u8, r: Seq<u8>, d: nat| node_info_step(m, t, w, r, d),
        );
    }
    lemma_node_info_endpoints(m1, m.additional_host_endpoints, rest, depth);
    assert(Seq::<EndpointView>::empty() + m.additional_host_endpoints =~= m.additional_host_endpoints);
}

impl NodeInfo {
    /// Appends the encoding of the message to `out`.
    pub fn encode_raw(&self, out: &mut Vec<u8>)
        ensures
            final(out)@ == old(out)@ + node_info_bytes(self@),
    {
        let ghost f = |e: EndpointView| endpoint_bytes(e);
        let ghost view = self@.additional_host_endpoints;
        encode_string(1, &self.node_id, out);
        let ghost head = out@;
        let mut i: usize = 0;
        assert(view.take(0) =~= Seq::<EndpointView>::empty());
        while i < self.additional_host_endpoints.len()
            invariant
                i <= self.additional_host_endpoints@.len(),
                view == self@.additional_host_endpoints,
                view.len() == self.additional_host_endpoints@.len(),
                f == (|e: EndpointView| endpoint_bytes(e)),
                out@ == head + repeated_field(7, view.take(i as int), f),
            decreases self.additional_host_endpoints@.len() - i,
        {
            let mut tmp: Vec<u8> = Vec::new();
            self.additional_host_endpoints[i].encode_raw(&mut tmp);
            encode_delimited(7, tmp.as_slice(), out);
            assert(view.take(i + 1).drop_last() =~= view.take(i as int));
            assert(view.take(i + 1).last() == self.additional_host_endpoints@[i as int]@);
            i = i + 1;
        }
        assert(view.take(i as int) =~= view);
    }

    /// Merges the fields encoded in `buf[pos..end]` into the message.
    #[verifier::spinoff_prover]
    #[verifier::rlimit(40)]
    pub fn merge_from(&mut self, buf: &[u8], pos: usize, end: usize, depth: u32) -> (ok: bool)
        requires
            pos <= end <= buf@.len(),
        ensures
            ok <==> merge_node_info(old(self)@, buf@.subrange(pos as int, end as int), depth as nat)
                is Some,
            ok ==> merge_node_info(old(self)@, buf@.subrange(pos as int, end as int), depth as nat)
                == Some(final(self)@),
    {
        let mut p = pos;
        while p < end
            invariant
                pos <= p <= end <= buf@.len(),
                merge_node_info(old(self)@, buf@.subrange(pos as int, end as int), depth as nat)
                    == merge_node_info(self@, buf@.subrange(p as int, end as int), depth as nat),
            decreases end - p,
        {
            let ghost s = buf@.subrange(p as int, end as int);
            let (tag, wire_type, n) = match decode_key(buf, p, end) {
                Some(k) => k,
                None => return false,
            };
            let q = p + n;
            assert(s.skip(n as int) =~= buf@.subrange(q as int, end as int));
            let used = if tag == 1 {
                match decode_string(wire_type, buf, q, end) {
                    Some((value, used)) => {
                        self.node_id = value;
                        used
                    },
                    None => return false,
                }
            } else if tag == 7 {
                if wire_type != WIRE_LEN || depth == 0 {
                    return false;
                }
                match decode_delimited(buf, q, end) {
                    Some((start, stop)) => {
                        let mut e = Endpoint::default();
                        if !e.merge_from(buf, start, stop, depth - 1) {
                            return false;
                        }
                        let ghost before = self.additional_host_endpoints@;
                        let ghost ev = e@;
                        self.additional_host_endpoints.push(e);
                        assert(self.additional_host_endpoints@.map_values(|e: Endpoint| e@)
                            =~= before.map_values(|e: Endpoint| e@).push(ev));
                        stop - q
                    },
                    None => return false,
                }
            } else {
                match skip_field(wire_type, tag, buf, q, end, depth) {
                    Some(used) => used,
                    None => return false,
                }
            };
            assert(s.skip((n + used) as int) =~= buf@.subrange((q + used) as int, end as int));
            p = q + used;
        }
        true
    }
}

// ---------------------------------------------------------------------------
// NodeSet

/// A set of nodes a request applies to.
#[derive(Debug, Clone, PartialEq, Eq)]
pub struct NodeSet {
    /// Field 1.
    pub nodes: Vec<NodeInfo>,
}

/// The content of a `NodeSet`.
pub struct NodeSetView {
    pub nodes: Seq<NodeInfoView>,
}

impl NodeSetView {
    /// The message with every field at its default.
    pub open spec fn empty() -> Self {
        NodeSetView { nodes: Seq::empty() }
    }
}

impl View for NodeSet {
    type V = NodeSetView;

    open spec fn view(&self) -> NodeSetView {
        NodeSetView { nodes: self.nodes@.map_values(|n: NodeInfo| n@) }
    }
}

impl Default for NodeSet {
    fn default() -> (res: Self)
        ensures
            res@ == NodeSetView::empty(),
    {
        let res = NodeSet { nodes: Vec::new() };
        assert(res@.nodes =~= Seq::<NodeInfoView>::empty());
        res
    }
}

/// The encoding of a `NodeSet`.
pub open spec fn node_set_bytes(m: NodeSetView) -> Seq<u8> {
    repeated_field(1, m.nodes, |n: NodeInfoView| node_info_bytes(n))
}

/// Reads one field of a `NodeSet`.
pub open spec fn node_set_step(m: NodeSetView, tag: u32, wire_type: u8, rest: Seq<u8>, depth: nat) -> Option<
    (NodeSetView, nat),
> {
    if tag == 1 {
        match message_step(
            wire_type,
            rest,
            depth,
            NodeInfoView::empty(),
            |n: NodeInfoView, s: Seq<u8>, d: nat| merge_node_info(n, s, d),
        ) {
            Some((n, used)) => Some((NodeSetView { nodes: m.nodes.push(n) }, used)),
            None => None,
        }
    } else {
        unknown_step(m, tag, wire_type, rest, depth)
    }
}

/// `m` with the fields encoded in `s` merged into it.
pub open spec fn merge_node_set(m: NodeSetView, s: Seq<u8>, depth: nat) -> Option<NodeSetView> {
    merge_fields(
        m,
        s,
        depth,
        |m: NodeSetView, t: u32, w: u8, r: Seq<u8>, d: nat| node_set_step(m, t, w, r, d),
    )
}

proof fn lemma_node_set_nodes(m: NodeSetView, ns: Seq<NodeInfoView>, rest: Seq<u8>, depth: nat)
    requires
        repeated_field(1, ns, |n: NodeInfoView| node_info_bytes(n)).len() <= u64::MAX,
        depth >= 3,
    ensures
        merge_node_set(m, repeated_field(1, ns, |n: NodeInfoView| node_info_bytes(n)) + rest, depth)
            == merge_node_set(NodeSetView { nodes: m.nodes + ns }, rest, depth),
    decreases ns.len(),
{
    let f = |n: NodeInfoView| node_info_bytes(n);
    if ns.len() == 0 {
        assert(repeated_field(1, ns, f) + rest =~= rest);
        assert(m.nodes + ns =~= m.nodes);
    } else {
        let init = ns.drop_last();
        let last = ns.last();
        let p = node_info_bytes(last);
        let field = delimited_field(1, p);
        assert(repeated_field(1, ns, f) + rest =~= repeated_field(1, init, f) + (field + rest));
        lemma_node_set_nodes(m, init, field + rest, depth);
        let m1 = NodeSetView { nodes: m.nodes + init };
        lemma_node_info_roundtrip(last, Seq::empty(), (depth - 1) as nat);
        assert(p + Seq::<u8>::empty() =~= p);
        lemma_message_step(
            p,
            rest,
            depth,
            NodeInfoView::empty(),
            last,
            |n: NodeInfoView, s: Seq<u8>, d: nat| merge_node_info(n, s, d),
        );
        lemma_merge_delimited_field(
            m1,
            NodeSetView { nodes: m1.nodes.push(last) },
            1,
            p,
            rest,
            depth,
            |m: NodeSetView, t: u32, w: u8, r: Seq<u8>, d: nat| node_set_step(m, t, w, r, d),
        );
        assert(m1.nodes.push(last) =~= m.nodes + ns);
    }
}

/// Encoding then decoding gives the message back.
pub proof fn lemma_node_set_roundtrip(m: NodeSetView, rest: Seq<u8>, depth: nat)
    requires
        node_set_bytes(m).len() <= u64::MAX,
        depth >= 3,
    ensures
        merge_node_set(NodeSetView::empty(), node_set_bytes(m) + rest, depth) == merge_node_set(
            m,
            rest,
            depth,
        ),
{
    lemma_node_set_nodes(NodeSetView::empty(), m.nodes, rest, depth);
    assert(Seq::<NodeInfoView>::empty() + m.nodes =~= m.nodes);
}

impl NodeSet {
    /// Appends the encoding of the message to `out`.
    pub fn encode_raw(&self, out: &mut Vec<u8>)
        ensures
            final(out)@ == old(out)@ + node_set_bytes(self@),
    {
        let ghost f = |n: NodeInfoView| node_info_bytes(n);
        let ghost view = self@.nodes;
        let ghost head = out@;
        let mut i: usize = 0;
        assert(view.take(0) =~= Seq::<NodeInfoView>::empty());
        assert(out@ =~= head + repeated_field(1, view.take(0), f));
        while i < self.nodes.len()
            invariant
                i <= self.nodes@.len(),
                view == self@.nodes,
                view.len() == self.nodes@.len(),
                f == (|n: NodeInfoView| node_info_bytes(n)),
                out@ == head + repeated_field(1, view.take(i as int), f),
            decreases self.nodes@.len() - i,
        {
            let mut tmp: Vec<u8> = Vec::new();
            self.nodes[i].encode_raw(&mut tmp);
            encode_delimited(1, tmp.as_slice(), out);
            assert(view.take(i + 1).drop_last() =~= view.take(i as int));
            assert(view.take(i + 1).last() == self.nodes@[i as int]@);
            i = i + 1;
        }
        assert(view.take(i as int) =~= view);
    }

    /// Merges the fields encoded in `buf[pos..end]` into the message.
    #[verifier::spinoff_prover]
    #[verifier::rlimit(40)]
    pub fn merge_from(&mut self, buf: &[u8], pos: usize, end: usize, depth: u32) -> (ok: bool)
        requires
            pos <= end <= buf@.len(),
        ensures
            ok <==> merge_node_set(old(self)@, buf@.subrange(pos as int, end as int), depth as nat)
                is Some,
            ok ==> merge_node_set(old(self)@, buf@.subrange(pos as int, end as int), depth as nat)
                == Some(final(self)@),
    {
        let mut p = pos;
        while p < end
            invariant
                pos <= p <= end <= buf@.len(),
                merge_node_set(old(self)@, buf@.subrange(pos as int, end as int), depth as nat)
                    == merge_node_set(self@, buf@.subrange(p as int, end as int), depth as nat),
            decreases end - p,
        {
            let ghost s = buf@.subrange(p as int, end as int);
            let (tag, wire_type, n) = match decode_key(buf, p, end) {
                Some(k) => k,
                None => return false,
            };
            let q = p + n;
            assert(s.skip(n as int) =~= buf@.subrange(q as int, end as int));
            let used = if tag == 1 {
                if wire_type != WIRE_LEN || depth == 0 {
                    return false;
                }
                match decode_delimited(buf, q, end) {
                    Some((start, stop)) => {
                        let mut node = NodeInfo::default();
                        if !node.merge_from(buf, start, stop, depth - 1) {
                            return false;
                        }
                        let ghost before = self.nodes@;
                        let ghost nv = node@;
                        self.nodes.push(node);
                        assert(self.nodes@.map_values(|n: NodeInfo| n@) =~= before.map_values(
                            |n: NodeInfo| n@,
                        ).push(nv));
                        stop - q
                    },
                    None => return false,
                }
            } else {
                match skip_field(wire_type, tag, buf, q, end, depth) {
                    Some(used) => used,
                    None => return false,
                }
            };
            assert(s.skip((n + used) as int) =~= buf@.subrange((q + used) as int, end as int));
            p = q + used;
        }
        true
    }
}

// ---------------------------------------------------------------------------
// BatchGetFirmwareInventoryRequest

/// Asks for the firmware inventory of several nodes.
#[derive(Debug, Clone, PartialEq, Eq)]
pub struct BatchGetFirmwareInventoryRequest {
    /// Field 2.
    pub nodes: Option<NodeSet>,
}

/// The content of a `BatchGetFirmwareInventoryRequest`.
pub struct BatchGetFirmwareInventoryRequestView {
    pub nodes: Option<NodeSetView>,
}

impl BatchGetFirmwareInventoryRequestView {
    /// The message with every field at its default.
    pub open spec fn empty() -> Self {
        BatchGetFirmwareInventoryRequestView { nodes: None }
    }
}

impl View for BatchGetFirmwareInventoryRequest {
    type V = BatchGetFirmwareInventoryRequestView;

    open spec fn view(&self) -> BatchGetFirmwareInventoryRequestView {
        BatchGetFirmwareInventoryRequestView {
            nodes: match self.nodes {
                Some(n) => Some(n@),
                None => None,
            },
        }
    }
}

impl Default for BatchGetFirmwareInventoryRequest {
    fn default() -> (res: Self)
        ensures
            res@ == BatchGetFirmwareInventoryRequestView::empty(),
    {
        BatchGetFirmwareInventoryRequest { nodes: None }
    }
}

/// The encoding of a `BatchGetFirmwareInventoryRequest`.
pub open spec fn batch_get_firmware_inventory_request_bytes(
    m: BatchGetFirmwareInventoryRequestView,
) -> Seq<u8> {
    optional_field(2, m.nodes, |n: NodeSetView| node_set_bytes(n))
}

/// Reads one field of a `BatchGetFirmwareInventoryRequest`.
pub open spec fn batch_get_firmware_inventory_request_step(
    m: BatchGetFirmwareInventoryRequestView,
    tag: u32,
    wire_type: u8,
    rest: Seq<u8>,
    depth: nat,
) -> Option<(BatchGetFirmwareInventoryRequestView, nat)> {
    if tag == 2 {
        let into = match m.nodes {
            Some(n) => n,
            None => NodeSetView::empty(),
        };
        match message_step(
            wire_type,
            rest,
            depth,
            into,
            |n: NodeSetView, s: Seq<u8>, d: nat| merge_node_set(n, s, d),
        ) {
            Some((n, used)) => Some((BatchGetFirmwareInventoryRequestView { nodes: Some(n) }, used)),
            None => None,
        }
    } else {
        unknown_step(m, tag, wire_type, rest, depth)
    }
}

/// `m` with the fields encoded in `s` merged into it.
pub open spec fn merge_batch_get_firmware_inventory_request(
    m: BatchGetFirmwareInventoryRequestView,
    s: Seq<u8>,
    depth: nat,
) -> Option<BatchGetFirmwareInventoryRequestView> {
    merge_fields(
        m,
        s,
        depth,
        |m: BatchGetFirmwareInventoryRequestView, t: u32, w: u8, r: Seq<u8>, d: nat|
            batch_get_firmware_inventory_request_step(m, t, w, r, d),
    )
}

/// Encoding then decoding gives the message back.
pub proof fn lemma_batch_get_firmware_inventory_request_roundtrip(
    m: BatchGetFirmwareInventoryRequestView,
    rest: Seq<u8>,
    depth: nat,
)
    requires
        batch_get_firmware_inventory_request_bytes(m).len() <= u64::MAX,
        depth >= 4,
    ensures
        merge_batch_get_firmware_inventory_request(
            BatchGetFirmwareInventoryRequestView::empty(),
            batch_get_firmware_inventory_request_bytes(m) + rest,
            depth,
        ) == merge_batch_get_firmware_inventory_request(m, rest, depth),
{
    match m.nodes {
        None => {
            assert(batch_get_firmware_inventory_request_bytes(m) + rest =~= rest);
        },
        Some(n) => {
            let p = node_set_bytes(n);
            lemma_node_set_roundtrip(n, Seq::empty(), (depth - 1) as nat);
            assert(p + Seq::<u8>::empty() =~= p);
            lemma_message_step(
                p,
                rest,
                depth,
                NodeSetView::empty(),
                n,
                |n: NodeSetView, s: Seq<u8>, d: nat| merge_node_set(n, s, d),
            );
            lemma_merge_delimited_field(
                BatchGetFirmwareInventoryRequestView::empty(),
                m,
                2,
                p,
                rest,
                depth,
                |m: BatchGetFirmwareInventoryRequestView, t: u32, w: u8, r: Seq<u8>, d: nat|
                    batch_get_firmware_inventory_request_step(m, t, w, r, d),
            );
        },
    }
}

impl BatchGetFirmwareInventoryRequest {
    /// Appends the encoding of the message to `out`.
    pub fn encode_raw(&self, out: &mut Vec<u8>)
        ensures
            final(out)@ == old(out)@ + batch_get_firmware_inventory_request_bytes(self@),
    {
        match &self.nodes {
            Some(n) => {
                let mut tmp: Vec<u8> = Vec::new();
                n.encode_raw(&mut tmp);
                encode_delimited(2, tmp.as_slice(), out);
            },
            None => {
                assert(final(out)@ =~= old(out)@ + batch_get_firmware_inventory_request_bytes(self@));
            },
        }
    }

    /// Merges the fields encoded in `buf[pos..end]` into the message.
    #[verifier::spinoff_prover]
    #[verifier::rlimit(40)]
    pub fn merge_from(&mut self, buf: &[u8], pos: usize, end: usize, depth: u32) -> (ok: bool)
        requires
            pos <= end <= buf@.len(),
        ensures
            ok <==> merge_batch_get_firmware_inventory_request(
                old(self)@,
                buf@.subrange(pos as int, end as int),
                depth as nat,
            ) is Some,
            ok ==> merge_batch_get_firmware_inventory_request(
                old(self)@,
                buf@.subrange(pos as int, end as int),
                depth as nat,
            ) == Some(final(self)@),
    {
        let mut p = pos;
        while p < end
            invariant
                pos <= p <= end <= buf@.len(),
                merge_batch_get_firmware_inventory_request(
                    old(self)@,
                    buf@.subrange(pos as int, end as int),
                    depth as nat,
                ) == merge_batch_get_firmware_inventory_request(
                    self@,
                    buf@.subrange(p as int, end as int),
                    depth as nat,
                ),
            decreases end - p,
        {
            let ghost s = buf@.subrange(p as int, end as int);
            let (tag, wire_type, n) = match decode_key(buf, p, end) {
                Some(k) => k,
                None => return false,
            };
            let q = p + n;
            assert(s.skip(n as int) =~= buf@.subrange(q as int, end as int));
            let used = if tag == 2 {
                if wire_type != WIRE_LEN || depth == 0 {
                    return false;
                }
                match decode_delimited(buf, q, end) {
                    Some((start, stop)) => {
                        let mut inner = match self.nodes.take() {
                            Some(n) => n,
                            None => NodeSet::default(),
                        };
                        if !inner.merge_from(buf, start, stop, depth - 1) {
                            return false;
                        }
                        self.nodes = Some(inner);
                        stop - q
                    },
                    None => return false,
                }
            } else {
                match skip_field(wire_type, tag, buf, q, end, depth) {
                    Some(used) => used,
                    None => return false,
                }
            };
            assert(s.skip((n + used) as int) =~= buf@.subrange((q + used) as int, end as int));
            p = q + used;
        }
        true
    }
}

// ---------------------------------------------------------------------------
// CompareFirmwareObjectRequest

/// Asks how the firmware of some nodes compares with a firmware manifest.
#[derive(Debug, Clone, PartialEq, Eq)]
pub struct CompareFirmwareObjectRequest {
    /// Field 1: the manifest, as JSON.
    pub config_json: String,
    /// Field 2.
    pub firmware_type: String,
    /// Field 3.
    pub nodes: Option<NodeSet>,
}

/// The content of a `CompareFirmwareObjectRequest`.
pub struct CompareFirmwareObjectRequestView {
    pub config_json: Seq<char>,
    pub firmware_type: Seq<char>,
    pub nodes: Option<NodeSetView>,
}

impl CompareFirmwareObjectRequestView {
    /// The message with every field at its default.
    pub open spec fn empty() -> Self {
        CompareFirmwareObjectRequestView {
            config_json: Seq::empty(),
            firmware_type: Seq::empty(),
            nodes: None,
        }
    }
}

impl View for CompareFirmwareObjectRequest {
    type V = CompareFirmwareObjectRequestView;

    open spec fn view(&self) -> CompareFirmwareObjectRequestView {
        CompareFirmwareObjectRequestView {
            config_json: self.config_json@,
            firmware_type: self.firmware_type@,
            nodes: match self.nodes {
                Some(n) => Some(n@),
                None => None,
            },
        }
    }
}

impl Default for CompareFirmwareObjectRequest {
    fn default() -> (res: Self)
        ensures
            res@ == CompareFirmwareObjectRequestView::empty(),
    {
        CompareFirmwareObjectRequest {
            config_json: String::new(),
            firmware_type: String::new(),
            nodes: None,
        }
    }
}

/// The encoding of a `CompareFirmwareObjectRequest`.
pub open spec fn compare_firmware_object_request_bytes(m: CompareFirmwareObjectRequestView) -> Seq<
    u8,
> {
    string_field(1, m.config_json) + string_field(2, m.firmware_type) + optional_field(
        3,
        m.nodes,
        |n: NodeSetView| node_set_bytes(n),
    )
}

/// Reads one field of a `CompareFirmwareObjectRequest`.
pub open spec fn compare_firmware_object_request_step(
    m: CompareFirmwareObjectRequestView,
    tag: u32,
    wire_type: u8,
    rest: Seq<u8>,
    depth: nat,
) -> Option<(CompareFirmwareObjectRequestView, nat)> {
    if tag == 1 {
        match string_step(wire_type, rest) {
            Some((v, used)) => Some((CompareFirmwareObjectRequestView { config_json: v, ..m }, used)),
            None => None,
        }
    } else if tag == 2 {
        match string_step(wire_type, rest) {
            Some((v, used)) => Some(
                (CompareFirmwareObjectRequestView { firmware_type: v, ..m }, used),
            ),
            None => None,
        }
    } else if tag == 3 {
        let into = match m.nodes {
            Some(n) => n,
            None => NodeSetView::empty(),
        };
        match message_step(
            wire_type,
            rest,
            depth,
            into,
            |n: NodeSetView, s: Seq<u8>, d: nat| merge_node_set(n, s, d),
        ) {
            Some((n, used)) => Some((CompareFirmwareObjectRequestView { nodes: Some(n), ..m }, used)),
            None => None,
        }
    } else {
        unknown_step(m, tag, wire_type, rest, depth)
    }
}

/// `m` with the fields encoded in `s` merged into it.
pub open spec fn merge_compare_firmware_object_request(
    m: CompareFirmwareObjectRequestView,
    s: Seq<u8>,
    depth: nat,
) -> Option<CompareFirmwareObjectRequestView> {
    merge_fields(
        m,
        s,
        depth,
        |m: CompareFirmwareObjectRequestView, t: u32, w: u8, r: Seq<u8>, d: nat|
            compare_firmware_object_request_step(m, t, w, r, d),
    )
}

/// Encoding then decoding gives the message back.
pub proof fn lemma_compare_firmware_object_request_roundtrip(
    m: CompareFirmwareObjectRequestView,
    rest: Seq<u8>,
    depth: nat,
)
    requires
        compare_firmware_object_request_bytes(m).len() <= u64::MAX,
        depth >= 4,
    ensures
        merge_compare_firmware_object_request(
            CompareFirmwareObjectRequestView::empty(),
            compare_firmware_object_request_bytes(m) + rest,
            depth,
        ) == merge_compare_firmware_object_request(m, rest, depth),
{
    let step = |m: CompareFirmwareObjectRequestView, t: u32, w: u8, r: Seq<u8>, d: nat|
        compare_firmware_object_request_step(m, t, w, r, d);
    let f2 = string_field(2, m.firmware_type);
    let f3 = optional_field(3, m.nodes, |n: NodeSetView| node_set_bytes(n));
    let e0 = CompareFirmwareObjectRequestView::empty();
    let m1 = CompareFirmwareObjectRequestView { config_json: m.config_json, ..e0 };
    let m2 = CompareFirmwareObjectRequestView { firmware_type: m.firmware_type, ..m1 };
    // Field 1.
    if m.config_json.len() == 0 {
        assert(compare_firmware_object_request_bytes(m) + rest =~= f2 + f3 + rest);
        assert(m.config_json =~= Seq::<char>::empty());
        assert(e0 == m1);
    } else {
        let p = encode_utf8(m.config_json);
        assert(compare_firmware_object_request_bytes(m) + rest =~= delimited_field(1, p) + (f2 + f3
            + rest));
        lemma_string_step(m.config_json, f2 + f3 + rest);
        lemma_merge_delimited_field(e0, m1, 1, p, f2 + f3 + rest, depth, step);
    }
    // Field 2.
    if m.firmware_type.len() == 0 {
        assert(f2 + f3 + rest =~= f3 + rest);
        assert(m.firmware_type =~= Seq::<char>::empty());
        assert(m1 == m2);
    } else {
        let p = encode_utf8(m.firmware_type);
        assert(f2 + f3 + rest =~= delimited_field(2, p) + (f3 + rest));
        lemma_string_step(m.firmware_type, f3 + rest);
        lemma_merge_delimited_field(m1, m2, 2, p, f3 + rest, depth, step);
    }
    // Field 3.
    match m.nodes {
        None => {
            assert(f3 + rest =~= rest);
            assert(m2 == m);
        },
        Some(n) => {
            let p = node_set_bytes(n);
            lemma_node_set_roundtrip(n, Seq::empty(), (depth - 1) as nat);
            assert(p + Seq::<u8>::empty() =~= p);
            lemma_message_step(
                p,
                rest,
                depth,
                NodeSetView::empty(),
                n,
                |n: NodeSetView, s: Seq<u8>, d: nat| merge_node_set(n, s, d),
            );
            lemma_merge_delimited_field(m2, m, 3, p, rest, depth, step);
        },
    }
}

impl CompareFirmwareObjectRequest {
    /// Appends the encoding of the message to `out`.
    pub fn encode_raw(&self, out: &mut Vec<u8>)
        ensures
            final(out)@ == old(out)@ + compare_firmware_object_request_bytes(self@),
    {
        encode_string(1, &self.config_json, out);
        encode_string(2, &self.firmware_type, out);
        match &self.nodes {
            Some(n) => {
                let mut tmp: Vec<u8> = Vec::new();
                n.encode_raw(&mut tmp);
                encode_delimited(3, tmp.as_slice(), out);
            },
            None => {},
        }
        assert(final(out)@ =~= old(out)@ + compare_firmware_object_request_bytes(self@));
    }

    /// Merges the fields encoded in `buf[pos..end]` into the message.
    #[verifier::spinoff_prover]
    #[verifier::rlimit(40)]
    pub fn merge_from(&mut self, buf: &[u8], pos: usize, end: usize, depth: u32) -> (ok: bool)
        requires
            pos <= end <= buf@.len(),
        ensures
            ok <==> merge_compare_firmware_object_request(
                old(self)@,
                buf@.subrange(pos as int, end as int),
                depth as nat,
            ) is Some,
            ok ==> merge_compare_firmware_object_request(
                old(self)@,
                buf@.subrange(pos as int, end as int),
                depth as nat,
            ) == Some(final(self)@),
    {
        let mut p = pos;
        while p < end
            invariant
                pos <= p <= end <= buf@.len(),
                merge_compare_firmware_object_request(
                    old(self)@,
                    buf@.subrange(pos as int, end as int),
                    depth as nat,
                ) == merge_compare_firmware_object_request(
                    self@,
                    buf@.subrange(p as int, end as int),
                    depth as nat,
                ),
            decreases end - p,
        {
            let ghost s = buf@.subrange(p as int, end as int);
            let (tag, wire_type, n) = match decode_key(buf, p, end) {
                Some(k) => k,
                None => return false,
            };
            let q = p + n;
            assert(s.skip(n as int) =~= buf@.subrange(q as int, end as int));
            let used = if tag == 1 {
                match decode_string(wire_type, buf, q, end) {
                    Some((value, used)) => {
                        self.config_json = value;
                        used
                    },
                    None => return false,
                }
            } else if tag == 2 {
                match decode_string(wire_type, buf, q, end) {
                    Some((value, used)) => {
                        self.firmware_type = value;
                        used
                    },
                    None => return false,
                }
            } else if tag == 3 {
                if wire_type != WIRE_LEN || depth == 0 {
                    return false;
                }
                match decode_delimited(buf, q, end) {
                    Some((start, stop)) => {
                        let mut inner = match self.nodes.take() {
                            Some(n) => n,
                            None => NodeSet::default(),
                        };
                        if !inner.merge_from(buf, start, stop, depth - 1) {
                            return false;
                        }
                        self.nodes = Some(inner);
                        stop - q
                    },
                    None => return false,
                }
            } else {
                match skip_field(wire_type, tag, buf, q, end, depth) {
                    Some(used) => used,
                    None => return false,
                }
            };
            assert(s.skip((n + used) as int) =~= buf@.subrange((q + used) as int, end as int));
            p = q + used;
        }
        true
    }
}

// ---------------------------------------------------------------------------
// Whole messages

/// What decoding `s` as a whole `NetworkInterface` gives, if it succeeds.
pub open spec fn decode_network_interface_spec(s: Seq<u8>) -> Option<NetworkInterfaceView> {
    merge_network_interface(NetworkInterfaceView::empty(), s, RECURSION_LIMIT as nat)
}

/// A `NetworkInterface` decodes from its own encoding.
pub proof fn lemma_network_interface_decodes_its_encoding(m: NetworkInterfaceView)
    requires
        network_interface_bytes(m).len() <= u64::MAX,
    ensures
        decode_network_interface_spec(network_interface_bytes(m)) == Some(m),
{
    lemma_network_interface_roundtrip(m, Seq::empty(), RECURSION_LIMIT as nat);
    assert(network_interface_bytes(m) + Seq::<u8>::empty() =~= network_interface_bytes(m));
}

impl NetworkInterface {
    /// The encoding of the message.
    pub fn encode_to_vec(&self) -> (res: Vec<u8>)
        ensures
            res@ == network_interface_bytes(self@),
    {
        let mut out: Vec<u8> = Vec::new();
        self.encode_raw(&mut out);
        assert(out@ =~= network_interface_bytes(self@));
        out
    }

    /// Decodes a whole message from `buf`.
    pub fn decode(buf: &[u8]) -> (res: Result<Self, DecodeError>)
        ensures
            res is Ok <==> decode_network_interface_spec(buf@) is Some,
            res matches Ok(m) ==> decode_network_interface_spec(buf@) == Some(m@),
    {
        let mut m = NetworkInterface::default();
        assert(buf@.subrange(0, buf@.len() as int) =~= buf@);
        if m.merge_from(buf, 0, buf.len(), RECURSION_LIMIT) {
            Ok(m)
        } else {
            Err(DecodeError)
        }
    }
}

/// What decoding `s` as a whole `Endpoint` gives, if it succeeds.
pub open spec fn decode_endpoint_spec(s: Seq<u8>) -> Option<EndpointView> {
    merge_endpoint(EndpointView::empty(), s, RECURSION_LIMIT as nat)
}

/// A `Endpoint` decodes from its own encoding.
pub proof fn lemma_endpoint_decodes_its_encoding(m: EndpointView)
    requires
        endpoint_bytes(m).len() <= u64::MAX,
    ensures
        decode_endpoint_spec(endpoint_bytes(m)) == Some(m),
{
    lemma_endpoint_roundtrip(m, Seq::empty(), RECURSION_LIMIT as nat);
    assert(endpoint_bytes(m) + Seq::<u8>::empty() =~= endpoint_bytes(m));
}

impl Endpoint {
    /// The encoding of the message.
    pub fn encode_to_vec(&self) -> (res: Vec<u8>)
        ensures
            res@ == endpoint_bytes(self@),
    {
        let mut out: Vec<u8> = Vec::new();
        self.encode_raw(&mut out);
        assert(out@ =~= endpoint_bytes(self@));
        out
    }

    /// Decodes a whole message from `buf`.
    pub fn decode(buf: &[u8]) -> (res: Result<Self, DecodeError>)
        ensures
            res is Ok <==> decode_endpoint_spec(buf@) is Some,
            res matches Ok(m) ==> decode_endpoint_spec(buf@) == Some(m@),
    {
        let mut m = Endpoint::default();
        assert(buf@.subrange(0, buf@.len() as int) =~= buf@);
        if m.merge_from(buf, 0, buf.len(), RECURSION_LIMIT) {
            Ok(m)
        } else {
            Err(DecodeError)
        }
    }
}

/// What decoding `s` as a whole `NodeInfo` gives, if it succeeds.
pub open spec fn decode_node_info_spec(s: Seq<u8>) -> Option<NodeInfoView> {
    merge_node_info(NodeInfoView::empty(), s, RECURSION_LIMIT as nat)
}

/// A `NodeInfo` decodes from its own encoding.
pub proof fn lemma_node_info_decodes_its_encoding(m: NodeInfoView)
    requires
        node_info_bytes(m).len() <= u64::MAX,
    ensures
        decode_node_info_spec(node_info_bytes(m)) == Some(m),
{
    lemma_node_info_roundtrip(m, Seq::empty(), RECURSION_LIMIT as nat);
    assert(node_info_bytes(m) + Seq::<u8>::empty() =~= node_info_bytes(m));
}

impl NodeInfo {
    /// The encoding of the message.
    pub fn encode_to_vec(&self) -> (res: Vec<u8>)
        ensures
            res@ == node_info_bytes(self@),
    {
        let mut out: Vec<u8> = Vec::new();
        self.encode_raw(&mut out);
        assert(out@ =~= node_info_bytes(self@));
        out
    }

    /// Decodes a whole message from `buf`.
    pub fn decode(buf: &[u8]) -> (res: Result<Self, DecodeError>)
        ensures
            res is Ok <==> decode_node_info_spec(buf@) is Some,
            res matches Ok(m) ==> decode_node_info_spec(buf@) == Some(m@),
    {
        let mut m = NodeInfo::default();
        assert(buf@.subrange(0, buf@.len() as int) =~= buf@);
        if m.merge_from(buf, 0, buf.len(), RECURSION_LIMIT) {
            Ok(m)
        } else {
            Err(DecodeError)
        }
    }
}

/// What decoding `s` as a whole `NodeSet` gives, if it succeeds.
pub open spec fn decode_node_set_spec(s: Seq<u8>) -> Option<NodeSetView> {
    merge_node_set(NodeSetView::empty(), s, RECURSION_LIMIT as nat)
}

/// A `NodeSet` decodes from its own encoding.
pub proof fn lemma_node_set_decodes_its_encoding(m: NodeSetView)
    requires
        node_set_bytes(m).len() <= u64::MAX,
    ensures
        decode_node_set_spec(node_set_bytes(m)) == Some(m),
{
    lemma_node_set_roundtrip(m, Seq::empty(), RECURSION_LIMIT as nat);
    assert(node_set_bytes(m) + Seq::<u8>::empty() =~= node_set_bytes(m));
}

impl NodeSet {
    /// The encoding of the message.
    pub fn encode_to_vec(&self) -> (res: Vec<u8>)
        ensures
            res@ == node_set_bytes(self@),
    {
        let mut out: Vec<u8> = Vec::new();
        self.encode_raw(&mut out);
        assert(out@ =~= node_set_bytes(self@));
        out
    }

    /// Decodes a whole message from `buf`.
    pub fn decode(buf: &[u8]) -> (res: Result<Self, DecodeError>)
        ensures
            res is Ok <==> decode_node_set_spec(buf@) is Some,
            res matches Ok(m) ==> decode_node_set_spec(buf@) == Some(m@),
    {
        let mut m = NodeSet::default();
        assert(buf@.subrange(0, buf@.len() as int) =~= buf@);
        if m.merge_from(buf, 0, buf.len(), RECURSION_LIMIT) {
            Ok(m)
        } else {
            Err(DecodeError)
        }
    }
}

/// What decoding `s` as a whole `BatchGetFirmwareInventoryRequest` gives, if it succeeds.
pub open spec fn decode_batch_get_firmware_inventory_request_spec(s: Seq<u8>) -> Option<BatchGetFirmwareInventoryRequestView> {
    merge_batch_get_firmware_inventory_request(BatchGetFirmwareInventoryRequestView::empty(), s, RECURSION_LIMIT as nat)
}

/// A `BatchGetFirmwareInventoryRequest` decodes from its own encoding.
pub proof fn lemma_batch_get_firmware_inventory_request_decodes_its_encoding(m: BatchGetFirmwareInventoryRequestView)
    requires
        batch_get_firmware_inventory_request_bytes(m).len() <= u64::MAX,
    ensures
        decode_batch_get_firmware_inventory_request_spec(batch_get_firmware_inventory_request_bytes(m)) == Some(m),
{
    lemma_batch_get_firmware_inventory_request_roundtrip(m, Seq::empty(), RECURSION_LIMIT as nat);
    assert(batch_get_firmware_inventory_request_bytes(m) + Seq::<u8>::empty() =~= batch_get_firmware_inventory_request_bytes(m));
}

impl BatchGetFirmwareInventoryRequest {
    /// The encoding of the message.
    pub fn encode_to_vec(&self) -> (res: Vec<u8>)
        ensures
            res@ == batch_get_firmware_inventory_request_bytes(self@),
    {
        let mut out: Vec<u8> = Vec::new();
        self.encode_raw(&mut out);
        assert(out@ =~= batch_get_firmware_inventory_request_bytes(self@));
        out
    }

    /// Decodes a whole message from `buf`.
    pub fn decode(buf: &[u8]) -> (res: Result<Self, DecodeError>)
        ensures
            res is Ok <==> decode_batch_get_firmware_inventory_request_spec(buf@) is Some,
            res matches Ok(m) ==> decode_batch_get_firmware_inventory_request_spec(buf@) == Some(m@),
    {
        let mut m = BatchGetFirmwareInventoryRequest::default();
        assert(buf@.subrange(0, buf@.len() as int) =~= buf@);
        if m.merge_from(buf, 0, buf.len(), RECURSION_LIMIT) {
            Ok(m)
        } else {
            Err(DecodeError)
        }
    }
}

/// What decoding `s` as a whole `CompareFirmwareObjectRequest` gives, if it succeeds.
pub open spec fn decode_compare_firmware_object_request_spec(s: Seq<u8>) -> Option<CompareFirmwareObjectRequestView> {
    merge_compare_firmware_object_request(CompareFirmwareObjectRequestView::empty(), s, RECURSION_LIMIT as nat)
}

/// A `CompareFirmwareObjectRequest` decodes from its own encoding.
pub proof fn lemma_compare_firmware_object_request_decodes_its_encoding(m: CompareFirmwareObjectRequestView)
    requires
        compare_firmware_object_request_bytes(m).len() <= u64::MAX,
    ensures
        decode_compare_firmware_object_request_spec(compare_firmware_object_request_bytes(m)) == Some(m),
{
    lemma_compare_firmware_object_request_roundtrip(m, Seq::empty(), RECURSION_LIMIT as nat);
    assert(compare_firmware_object_request_bytes(m) + Seq::<u8>::empty() =~= compare_firmware_object_request_bytes(m));
}

impl CompareFirmwareObjectRequest {
    /// The encoding of the message.
    pub fn encode_to_vec(&self) -> (res: Vec<u8>)
        ensures
            res@ == compare_firmware_object_request_bytes(self@),
    {
        let mut out: Vec<u8> = Vec::new();
        self.encode_raw(&mut out);
        assert(out@ =~= compare_firmware_object_request_bytes(self@));
        out
    }

    /// Decodes a whole message from `buf`.
    pub fn decode(buf: &[u8]) -> (res: Result<Self, DecodeError>)
        ensures
            res is Ok <==> decode_compare_firmware_object_request_spec(buf@) is Some,
            res matches Ok(m) ==> decode_compare_firmware_object_request_spec(buf@) == Some(m@),
    {
        let mut m = CompareFirmwareObjectRequest::default();
        assert(buf@.subrange(0, buf@.len() as int) =~= buf@);
        if m.merge_from(buf, 0, buf.len(), RECURSION_LIMIT) {
            Ok(m)
        } else {
            Err(DecodeError)
        }
    }
}

// ---------------------------------------------------------------------------
// Enumerations

/// Whether two strings hold the same text, compared byte by byte.
pub fn str_eq(a: &str, b: &str) -> (res: bool)
    ensures
        res == (a@ == b@),
{
    let x = a.as_bytes();
    let y = b.as_bytes();
    proof {
        encode_utf8_decode_utf8(a@);
        encode_utf8_decode_utf8(b@);
    }
    assert(x@ == encode_utf8(a@) && y@ == encode_utf8(b@));
    assert(a@ == b@ ==> x@ == y@);
    if x.len() != y.len() {
        return false;
    }
    let mut i: usize = 0;
    while i < x.len()
        invariant
            i <= x@.len(),
            x@.len() == y@.len(),
            a@ == b@ ==> x@ == y@,
            forall|j: int| 0 <= j < i ==> x@[j] == y@[j],
        decreases x@.len() - i,
    {
        if x[i] != y[i] {
            assert(x@ != y@);
            return false;
        }
        i = i + 1;
    }
    assert(x@ =~= y@);
    true
}

/// The kind of a node, as the Rack Manager reports it.
#[derive(Debug, Clone, Copy, PartialEq, Eq, Structural, Hash)]
pub enum NodeType {
    /// A VR NVL72 compute tray (wire value 10).
    ComputeVrnvl72Nvidia,
    /// A VR NVL72 switch tray (wire value 11).
    SwitchVrnvl72Nvidia,
}

impl NodeType {
    /// The number that stands for the value on the wire.
    pub open spec fn wire_value(self) -> i32 {
        match self {
            NodeType::ComputeVrnvl72Nvidia => 10,
            NodeType::SwitchVrnvl72Nvidia => 11,
        }
    }

    /// The name of the value in the API definition.
    pub open spec fn name(self) -> Seq<char> {
        match self {
            NodeType::ComputeVrnvl72Nvidia => "COMPUTE_VRNVL72_NVIDIA"@,
            NodeType::SwitchVrnvl72Nvidia => "SWITCH_VRNVL72_NVIDIA"@,
        }
    }

    /// The name of the value in the API definition.
    pub fn as_str_name(&self) -> (res: &'static str)
        ensures
            res@ == self.name(),
    {
        match self {
            NodeType::ComputeVrnvl72Nvidia => "COMPUTE_VRNVL72_NVIDIA",
            NodeType::SwitchVrnvl72Nvidia => "SWITCH_VRNVL72_NVIDIA",
        }
    }

    /// The value with the given name in the API definition, if any.
    pub fn from_str_name(value: &str) -> (res: Option<NodeType>)
        ensures
            res == (if value@ == NodeType::ComputeVrnvl72Nvidia.name() {
                Some(NodeType::ComputeVrnvl72Nvidia)
            } else if value@ == NodeType::SwitchVrnvl72Nvidia.name() {
                Some(NodeType::SwitchVrnvl72Nvidia)
            } else {
                None
            }),
    {
        if str_eq(value, "COMPUTE_VRNVL72_NVIDIA") {
            Some(NodeType::ComputeVrnvl72Nvidia)
        } else if str_eq(value, "SWITCH_VRNVL72_NVIDIA") {
            Some(NodeType::SwitchVrnvl72Nvidia)
        } else {
            None
        }
    }

    /// The value that `wire` stands for, if any.
    pub fn from_wire_value(wire: i32) -> (res: Option<NodeType>)
        ensures
            res matches Some(t) ==> t.wire_value() == wire,
            res is None ==> forall|t: NodeType| t.wire_value() != wire,
    {
        if wire == 10 {
            Some(NodeType::ComputeVrnvl72Nvidia)
        } else if wire == 11 {
            Some(NodeType::SwitchVrnvl72Nvidia)
        } else {
            None
        }
    }
}

impl From<NodeType> for i32 {
    fn from(value: NodeType) -> (res: i32) {
        match value {
            NodeType::ComputeVrnvl72Nvidia => 10,
            NodeType::SwitchVrnvl72Nvidia => 11,
        }
    }
}

impl vstd::std_specs::convert::FromSpecImpl<NodeType> for i32 {
    open spec fn obeys_from_spec() -> bool {
        true
    }

    open spec fn from_spec(v: NodeType) -> i32 {
        v.wire_value()
    }
}

/// A node type's name gives the node type back, and so does its wire value.
pub proof fn lemma_node_type_names_roundtrip(t: NodeType)
    ensures
        (if t.name() == NodeType::ComputeVrnvl72Nvidia.name() {
            Some(NodeType::ComputeVrnvl72Nvidia)
        } else if t.name() == NodeType::SwitchVrnvl72Nvidia.name() {
            Some(NodeType::SwitchVrnvl72Nvidia)
        } else {
            None
        }) == Some(t),
        forall|u: NodeType| u.wire_value() == t.wire_value() ==> u == t,
{
    reveal_strlit("COMPUTE_VRNVL72_NVIDIA");
    reveal_strlit("SWITCH_VRNVL72_NVIDIA");
    assert("COMPUTE_VRNVL72_NVIDIA"@[0] != "SWITCH_VRNVL72_NVIDIA"@[0]);
}

/// How a node's firmware compares with a manifest.
#[derive(Debug, Clone, Copy, PartialEq, Eq, Structural, Hash)]
pub enum FirmwareComparisonStatus {
    /// The installed firmware is the one the manifest names (wire value 1).
    Matched,
    /// Another firmware is installed (wire value 2).
    Mismatched,
    /// No firmware of the kind is installed (wire value 3).
    Missing,
    /// The installed firmware could not be checked (wire value 4).
    Unverified,
}

impl FirmwareComparisonStatus {
    /// The number that stands for the value on the wire.
    pub open spec fn wire_value(self) -> i32 {
        match self {
            FirmwareComparisonStatus::Matched => 1,
            FirmwareComparisonStatus::Mismatched => 2,
            FirmwareComparisonStatus::Missing => 3,
            FirmwareComparisonStatus::Unverified => 4,
        }
    }

    /// The value that `wire` stands for, if any.
    pub fn from_wire_value(wire: i32) -> (res: Option<FirmwareComparisonStatus>)
        ensures
            res matches Some(t) ==> t.wire_value() == wire,
            res is None ==> forall|t: FirmwareComparisonStatus| t.wire_value() != wire,
    {
        if wire == 1 {
            Some(FirmwareComparisonStatus::Matched)
        } else if wire == 2 {
            Some(FirmwareComparisonStatus::Mismatched)
        } else if wire == 3 {
            Some(FirmwareComparisonStatus::Missing)
        } else if wire == 4 {
            Some(FirmwareComparisonStatus::Unverified)
        } else {
            None
        }
    }
}

impl From<FirmwareComparisonStatus> for i32 {
    fn from(value: FirmwareComparisonStatus) -> (res: i32) {
        match value {
            FirmwareComparisonStatus::Matched => 1,
            FirmwareComparisonStatus::Mismatched => 2,
            FirmwareComparisonStatus::Missing => 3,
            FirmwareComparisonStatus::Unverified => 4,
        }
    }
}

impl vstd::std_specs::convert::FromSpecImpl<FirmwareComparisonStatus> for i32 {
    open spec fn obeys_from_spec() -> bool {
        true
    }

    open spec fn from_spec(v: FirmwareComparisonStatus) -> i32 {
        v.wire_value()
    }
}

// ---------------------------------------------------------------------------
// Fields a message does not know

/// A `NetworkInterface` decoder passes over varint and length-delimited fields whose
/// numbers it does not know, leaving the message as it was.
#[verifier::spinoff_prover]
pub proof fn lemma_network_interface_ignores_unknown_fields(
    m: NetworkInterfaceView,
    tag: u32,
    value: u64,
    payload: Seq<u8>,
    rest: Seq<u8>,
    depth: nat,
)
    requires
        tag != 1,
        1 <= tag <= 0x1fff_ffff,
        depth >= 1,
        payload.len() <= u64::MAX,
    ensures
        merge_network_interface(m, key_bytes(tag as nat, WIRE_VARINT as nat) + varint_bytes(value as nat) + rest, depth)
            == merge_network_interface(m, rest, depth),
        merge_network_interface(m, delimited_field(tag as nat, payload) + rest, depth) == merge_network_interface(
            m,
            rest,
            depth,
        ),
{
    let step = |m: NetworkInterfaceView, t: u32, w: u8, r: Seq<u8>, d: nat| network_interface_step(m, t, w, r, d);
    let v = varint_bytes(value as nat);
    assert(step(m, tag, WIRE_VARINT, v + rest, depth) == Some((m, v.len()))) by {
        lemma_skip_varint_field(tag, value, rest, depth);
    }
    lemma_merge_skipped_field(m, tag, WIRE_VARINT, v, rest, depth, step);
    let framed = varint_bytes(payload.len()) + payload;
    assert(step(m, tag, WIRE_LEN, framed + rest, depth) == Some((m, framed.len()))) by {
        assert(framed + rest =~= varint_bytes(payload.len()) + payload + rest);
        lemma_skip_delimited_field(tag, payload, rest, depth);
    }
    lemma_merge_skipped_field(m, tag, WIRE_LEN, framed, rest, depth, step);
    assert(delimited_field(tag as nat, payload) + rest =~= key_bytes(tag as nat, WIRE_LEN as nat)
        + framed + rest);
}

/// A `Endpoint` decoder passes over varint and length-delimited fields whose
/// numbers it does not know, leaving the message as it was.
#[verifier::spinoff_prover]
pub proof fn lemma_endpoint_ignores_unknown_fields(
    m: EndpointView,
    tag: u32,
    value: u64,
    payload: Seq<u8>,
    rest: Seq<u8>,
    depth: nat,
)
    requires
        tag != 1,
        1 <= tag <= 0x1fff_ffff,
        depth >= 1,
        payload.len() <= u64::MAX,
    ensures
        merge_endpoint(m, key_bytes(tag as nat, WIRE_VARINT as nat) + varint_bytes(value as nat) + rest, depth)
            == merge_endpoint(m, rest, depth),
        merge_endpoint(m, delimited_field(tag as nat, payload) + rest, depth) == merge_endpoint(
            m,
            rest,
            depth,
        ),
{
    let step = |m: EndpointView, t: u32, w: u8, r: Seq<u8>, d: nat| endpoint_step(m, t, w, r, d);
    let v = varint_bytes(value as nat);
    assert(step(m, tag, WIRE_VARINT, v + rest, depth) == Some((m, v.len()))) by {
        lemma_skip_varint_field(tag, value, rest, depth);
    }
    lemma_merge_skipped_field(m, tag, WIRE_VARINT, v, rest, depth, step);
    let framed = varint_bytes(payload.len()) + payload;
    assert(step(m, tag, WIRE_LEN, framed + rest, depth) == Some((m, framed.len()))) by {
        assert(framed + rest =~= varint_bytes(payload.len()) + payload + rest);
        lemma_skip_delimited_field(tag, payload, rest, depth);
    }
    lemma_merge_skipped_field(m, tag, WIRE_LEN, framed, rest, depth, step);
    assert(delimited_field(tag as nat, payload) + rest =~= key_bytes(tag as nat, WIRE_LEN as nat)
        + framed + rest);
}

/// A `NodeInfo` decoder passes over varint and length-delimited fields whose
/// numbers it does not know, leaving the message as it was.
#[verifier::spinoff_prover]
pub proof fn lemma_node_info_ignores_unknown_fields(
    m: NodeInfoView,
    tag: u32,
    value: u64,
    payload: Seq<u8>,
    rest: Seq<u8>,
    depth: nat,
)
    requires
        tag != 1 && tag != 7,
        1 <= tag <= 0x1fff_ffff,
        depth >= 1,
        payload.len() <= u64::MAX,
    ensures
        merge_node_info(m, key_bytes(tag as nat, WIRE_VARINT as nat) + varint_bytes(value as nat) + rest, depth)
            == merge_node_info(m, rest, depth),
        merge_node_info(m, delimited_field(tag as nat, payload) + rest, depth) == merge_node_info(
            m,
            rest,
            depth,
        ),
{
    let step = |m: NodeInfoView, t: u32, w: u8, r: Seq<u8>, d: nat| node_info_step(m, t, w, r, d);
    let v = varint_bytes(value as nat);
    assert(step(m, tag, WIRE_VARINT, v + rest, depth) == Some((m, v.len()))) by {
        lemma_skip_varint_field(tag, value, rest, depth);
    }
    lemma_merge_skipped_field(m, tag, WIRE_VARINT, v, rest, depth, step);
    let framed = varint_bytes(payload.len()) + payload;
    assert(step(m, tag, WIRE_LEN, framed + rest, depth) == Some((m, framed.len()))) by {
        assert(framed + rest =~= varint_bytes(payload.len()) + payload + rest);
        lemma_skip_delimited_field(tag, payload, rest, depth);
    }
    lemma_merge_skipped_field(m, tag, WIRE_LEN, framed, rest, depth, step);
    assert(delimited_field(tag as nat, payload) + rest =~= key_bytes(tag as nat, WIRE_LEN as nat)
        + framed + rest);
}

/// A `NodeSet` decoder passes over varint and length-delimited fields whose
/// numbers it does not know, leaving the message as it was.
#[verifier::spinoff_prover]
pub proof fn lemma_node_set_ignores_unknown_fields(
    m: NodeSetView,
    tag: u32,
    value: u64,
    payload: Seq<u8>,
    rest: Seq<u8>,
    depth: nat,
)
    requires
        tag != 1,
        1 <= tag <= 0x1fff_ffff,
        depth >= 1,
        payload.len() <= u64::MAX,
    ensures
        merge_node_set(m, key_bytes(tag as nat, WIRE_VARINT as nat) + varint_bytes(value as nat) + rest, depth)
            == merge_node_set(m, rest, depth),
        merge_node_set(m, delimited_field(tag as nat, payload) + rest, depth) == merge_node_set(
            m,
            rest,
            depth,
        ),
{
    let step = |m: NodeSetView, t: u32, w: u8, r: Seq<u8>, d: nat| node_set_step(m, t, w, r, d);
    let v = varint_bytes(value as nat);
    assert(step(m, tag, WIRE_VARINT, v + rest, depth) == Some((m, v.len()))) by {
        lemma_skip_varint_field(tag, value, rest, depth);
    }
    lemma_merge_skipped_field(m, tag, WIRE_VARINT, v, rest, depth, step);
    let framed = varint_bytes(payload.len()) + payload;
    assert(step(m, tag, WIRE_LEN, framed + rest, depth) == Some((m, framed.len()))) by {
        assert(framed + rest =~= varint_bytes(payload.len()) + payload + rest);
        lemma_skip_delimited_field(tag, payload, rest, depth);
    }
    lemma_merge_skipped_field(m, tag, WIRE_LEN, framed, rest, depth, step);
    assert(delimited_field(tag as nat, payload) + rest =~= key_bytes(tag as nat, WIRE_LEN as nat)
        + framed + rest);
}

/// A `BatchGetFirmwareInventoryRequest` decoder passes over varint and length-delimited fields whose
/// numbers it does not know, leaving the message as it was.
#[verifier::spinoff_prover]
pub proof fn lemma_batch_get_firmware_inventory_request_ignores_unknown_fields(
    m: BatchGetFirmwareInventoryRequestView,
    tag: u32,
    value: u64,
    payload: Seq<u8>,
    rest: Seq<u8>,
    depth: nat,
)
    requires
        tag != 2,
        1 <= tag <= 0x1fff_ffff,
        depth >= 1,
        payload.len() <= u64::MAX,
    ensures
        merge_batch_get_firmware_inventory_request(m, key_bytes(tag as nat, WIRE_VARINT as nat) + varint_bytes(value as nat) + rest, depth)
            == merge_batch_get_firmware_inventory_request(m, rest, depth),
        merge_batch_get_firmware_inventory_request(m, delimited_field(tag as nat, payload) + rest, depth) == merge_batch_get_firmware_inventory_request(
            m,
            rest,
            depth,
        ),
{
    let step = |m: BatchGetFirmwareInventoryRequestView, t: u32, w: u8, r: Seq<u8>, d: nat| batch_get_firmware_inventory_request_step(m, t, w, r, d);
    let v = varint_bytes(value as nat);
    assert(step(m, tag, WIRE_VARINT, v + rest, depth) == Some((m, v.len()))) by {
        lemma_skip_varint_field(tag, value, rest, depth);
    }
    lemma_merge_skipped_field(m, tag, WIRE_VARINT, v, rest, depth, step);
    let framed = varint_bytes(payload.len()) + payload;
    assert(step(m, tag, WIRE_LEN, framed + rest, depth) == Some((m, framed.len()))) by {
        assert(framed + rest =~= varint_bytes(payload.len()) + payload + rest);
        lemma_skip_delimited_field(tag, payload, rest, depth);
    }
    lemma_merge_skipped_field(m, tag, WIRE_LEN, framed, rest, depth, step);
    assert(delimited_field(tag as nat, payload) + rest =~= key_bytes(tag as nat, WIRE_LEN as nat)
        + framed + rest);
}

/// A `CompareFirmwareObjectRequest` decoder passes over varint and length-delimited fields whose
/// numbers it does not know, leaving the message as it was.
#[verifier::spinoff_prover]
pub proof fn lemma_compare_firmware_object_request_ignores_unknown_fields(
    m: CompareFirmwareObjectRequestView,
    tag: u32,
    value: u64,
    payload: Seq<u8>,
    rest: Seq<u8>,
    depth: nat,
)
    requires
        tag != 1 && tag != 2 && tag != 3,
        1 <= tag <= 0x1fff_ffff,
        depth >= 1,
        payload.len() <= u64::MAX,
    ensures
        merge_compare_firmware_object_request(m, key_bytes(tag as nat, WIRE_VARINT as nat) + varint_bytes(value as nat) + rest, depth)
            == merge_compare_firmware_object_request(m, rest, depth),
        merge_compare_firmware_object_request(m, delimited_field(tag as nat, payload) + rest, depth) == merge_compare_firmware_object_request(
            m,
            rest,
            depth,
        ),
{
    let step = |m: CompareFirmwareObjectRequestView, t: u32, w: u8, r: Seq<u8>, d: nat| compare_firmware_object_request_step(m, t, w, r, d);
    let v = varint_bytes(value as nat);
    assert(step(m, tag, WIRE_VARINT, v + rest, depth) == Some((m, v.len()))) by {
        lemma_skip_varint_field(tag, value, rest, depth);
    }
    lemma_merge_skipped_field(m, tag, WIRE_VARINT, v, rest, depth, step);
    let framed = varint_bytes(payload.len()) + payload;
    assert(step(m, tag, WIRE_LEN, framed + rest, depth) == Some((m, framed.len()))) by {
        assert(framed + rest =~= varint_bytes(payload.len()) + payload + rest);
        lemma_skip_delimited_field(tag, payload, rest, depth);
    }
    lemma_merge_skipped_field(m, tag, WIRE_LEN, framed, rest, depth, step);
    assert(delimited_field(tag as nat, payload) + rest =~= key_bytes(tag as nat, WIRE_LEN as nat)
        + framed + rest);
}

// ---------------------------------------------------------------------------
// Merging messages

/// A string field after merging: the later value when it is set, else the
/// earlier one.
pub open spec fn merged_string(a: Seq<char>, b: Seq<char>) -> Seq<char> {
    if b.len() == 0 {
        a
    } else {
        b
    }
}

/// `b` merged into `a`.
pub open spec fn merged_network_interface(a: NetworkInterfaceView, b: NetworkInterfaceView) -> NetworkInterfaceView {
    NetworkInterfaceView { ip_address: merged_string(a.ip_address, b.ip_address) }
}

/// `b` merged into `a`: a nested message present in both is merged in turn.
pub open spec fn merged_endpoint(a: EndpointView, b: EndpointView) -> EndpointView {
    EndpointView {
        interface: match b.interface {
            None => a.interface,
            Some(y) => match a.interface {
                Some(x) => Some(merged_network_interface(x, y)),
                None => Some(y),
            },
        },
    }
}

/// `b` merged into `a`: repeated fields are concatenated.
pub open spec fn merged_node_info(a: NodeInfoView, b: NodeInfoView) -> NodeInfoView {
    NodeInfoView {
        node_id: merged_string(a.node_id, b.node_id),
        additional_host_endpoints: a.additional_host_endpoints + b.additional_host_endpoints,
    }
}

/// `b` merged into `a`.
pub open spec fn merged_node_set(a: NodeSetView, b: NodeSetView) -> NodeSetView {
    NodeSetView { nodes: a.nodes + b.nodes }
}

/// An optional node set after merging.
pub open spec fn merged_optional_node_set(a: Option<NodeSetView>, b: Option<NodeSetView>) -> Option<
    NodeSetView,
> {
    match b {
        None => a,
        Some(y) => match a {
            Some(x) => Some(merged_node_set(x, y)),
            None => Some(y),
        },
    }
}

/// `b` merged into `a`.
pub open spec fn merged_batch_get_firmware_inventory_request(
    a: BatchGetFirmwareInventoryRequestView,
    b: BatchGetFirmwareInventoryRequestView,
) -> BatchGetFirmwareInventoryRequestView {
    BatchGetFirmwareInventoryRequestView { nodes: merged_optional_node_set(a.nodes, b.nodes) }
}

/// `b` merged into `a`.
pub open spec fn merged_compare_firmware_object_request(
    a: CompareFirmwareObjectRequestView,
    b: CompareFirmwareObjectRequestView,
) -> CompareFirmwareObjectRequestView {
    CompareFirmwareObjectRequestView {
        config_json: merged_string(a.config_json, b.config_json),
        firmware_type: merged_string(a.firmware_type, b.firmware_type),
        nodes: merged_optional_node_set(a.nodes, b.nodes),
    }
}

proof fn lemma_network_interface_merge(
    m0: NetworkInterfaceView,
    m: NetworkInterfaceView,
    rest: Seq<u8>,
    depth: nat,
)
    requires
        network_interface_bytes(m).len() <= u64::MAX,
    ensures
        merge_network_interface(m0, network_interface_bytes(m) + rest, depth)
            == merge_network_interface(merged_network_interface(m0, m), rest, depth),
{
    if m.ip_address.len() == 0 {
        assert(network_interface_bytes(m) + rest =~= rest);
    } else {
        lemma_string_step(m.ip_address, rest);
        lemma_merge_delimited_field(
            m0,
            merged_network_interface(m0, m),
            1,
            encode_utf8(m.ip_address),
            rest,
            depth,
            |m: NetworkInterfaceView, t: u32, w: u8, r: Seq<u8>, d: nat|
                network_interface_step(m, t, w, r, d),
        );
    }
}

proof fn lemma_endpoint_merge(m0: EndpointView, m: EndpointView, rest: Seq<u8>, depth: nat)
    requires
        endpoint_bytes(m).len() <= u64::MAX,
        depth >= 1,
    ensures
        merge_endpoint(m0, endpoint_bytes(m) + rest, depth) == merge_endpoint(
            merged_endpoint(m0, m),
            rest,
            depth,
        ),
{
    match m.interface {
        None => {
            assert(endpoint_bytes(m) + rest =~= rest);
        },
        Some(i) => {
            let into = match m0.interface {
                Some(x) => x,
                None => NetworkInterfaceView::empty(),
            };
            let p = network_interface_bytes(i);
            let r = merged_network_interface(into, i);
            lemma_network_interface_merge(into, i, Seq::empty(), (depth - 1) as nat);
            assert(p + Seq::<u8>::empty() =~= p);
            lemma_message_step(
                p,
                rest,
                depth,
                into,
                r,
                |i: NetworkInterfaceView, s: Seq<u8>, d: nat| merge_network_interface(i, s, d),
            );
            lemma_merge_delimited_field(
                m0,
                EndpointView { interface: Some(r) },
                1,
                p,
                rest,
                depth,
                |m: EndpointView, t: u32, w: u8, r: Seq<u8>, d: nat| endpoint_step(m, t, w, r, d),
            );
            if m0.interface is None {
                if i.ip_address.len() == 0 {
                    assert(i.ip_address =~= Seq::<char>::empty());
                }
                assert(r == i);
            }
        },
    }
}

proof fn lemma_node_info_merge(m0: NodeInfoView, m: NodeInfoView, rest: Seq<u8>, depth: nat)
    requires
        node_info_bytes(m).len() <= u64::MAX,
        depth >= 2,
    ensures
        merge_node_info(m0, node_info_bytes(m) + rest, depth) == merge_node_info(
            merged_node_info(m0, m),
            rest,
            depth,
        ),
{
    let f = |e: EndpointView| endpoint_bytes(e);
    let reps = repeated_field(7, m.additional_host_endpoints, f);
    let m1 = NodeInfoView { node_id: merged_string(m0.node_id, m.node_id), ..m0 };
    if m.node_id.len() == 0 {
        assert(node_info_bytes(m) + rest =~= reps + rest);
        assert(m1 == m0);
    } else {
        let p = encode_utf8(m.node_id);
        assert(node_info_bytes(m) + rest =~= delimited_field(1, p) + (reps + rest));
        lemma_string_step(m.node_id, reps + rest);
        lemma_merge_delimited_field(
            m0,
            m1,
            1,
            p,
            reps + rest,
            depth,
            |m: NodeInfoView, t: u32, w: u8, r: Seq<u8>, d: nat| node_info_step(m, t, w, r, d),
        );
    }
    lemma_node_info_endpoints(m1, m.additional_host_endpoints, rest, depth);
}

proof fn lemma_optional_node_set_merge_step(
    into_from: Option<NodeSetView>,
    n: NodeSetView,
    rest: Seq<u8>,
    depth: nat,
)
    requires
        node_set_bytes(n).len() <= u64::MAX,
        depth >= 4,
    ensures
        ({
            let into = match into_from {
                Some(x) => x,
                None => NodeSetView::empty(),
            };
            &&& message_step(
                WIRE_LEN,
                varint_bytes(node_set_bytes(n).len()) + node_set_bytes(n) + rest,
                depth,
                into,
                |n: NodeSetView, s: Seq<u8>, d: nat| merge_node_set(n, s, d),
            ) == Some(
                (
                    merged_optional_node_set(into_from, Some(n))->0,
                    varint_bytes(node_set_bytes(n).len()).len() + node_set_bytes(n).len(),
                ),
            )
        }),
{
    let into = match into_from {
        Some(x) => x,
        None => NodeSetView::empty(),
    };
    let p = node_set_bytes(n);
    lemma_node_set_nodes(into, n.nodes, Seq::empty(), (depth - 1) as nat);
    assert(p + Seq::<u8>::empty() =~= p);
    let r = NodeSetView { nodes: into.nodes + n.nodes };
    lemma_message_step(
        p,
        rest,
        depth,
        into,
        r,
        |n: NodeSetView, s: Seq<u8>, d: nat| merge_node_set(n, s, d),
    );
    if into_from is None {
        assert(into.nodes + n.nodes =~= n.nodes);
    }
}

proof fn lemma_batch_get_firmware_inventory_request_merge(
    m0: BatchGetFirmwareInventoryRequestView,
    m: BatchGetFirmwareInventoryRequestView,
    rest: Seq<u8>,
    depth: nat,
)
    requires
        batch_get_firmware_inventory_request_bytes(m).len() <= u64::MAX,
        depth >= 4,
    ensures
        merge_batch_get_firmware_inventory_request(
            m0,
            batch_get_firmware_inventory_request_bytes(m) + rest,
            depth,
        ) == merge_batch_get_firmware_inventory_request(
            merged_batch_get_firmware_inventory_request(m0, m),
            rest,
            depth,
        ),
{
    match m.nodes {
        None => {
            assert(batch_get_firmware_inventory_request_bytes(m) + rest =~= rest);
        },
        Some(n) => {
            lemma_optional_node_set_merge_step(m0.nodes, n, rest, depth);
            lemma_merge_delimited_field(
                m0,
                merged_batch_get_firmware_inventory_request(m0, m),
                2,
                node_set_bytes(n),
                rest,
                depth,
                |m: BatchGetFirmwareInventoryRequestView, t: u32, w: u8, r: Seq<u8>, d: nat|
                    batch_get_firmware_inventory_request_step(m, t, w, r, d),
            );
        },
    }
}

proof fn lemma_compare_firmware_object_request_merge(
    m0: CompareFirmwareObjectRequestView,
    m: CompareFirmwareObjectRequestView,
    rest: Seq<u8>,
    depth: nat,
)
    requires
        compare_firmware_object_request_bytes(m).len() <= u64::MAX,
        depth >= 4,
    ensures
        merge_compare_firmware_object_request(
            m0,
            compare_firmware_object_request_bytes(m) + rest,
            depth,
        ) == merge_compare_firmware_object_request(
            merged_compare_firmware_object_request(m0, m),
            rest,
            depth,
        ),
{
    let step = |m: CompareFirmwareObjectRequestView, t: u32, w: u8, r: Seq<u8>, d: nat|
        compare_firmware_object_request_step(m, t, w, r, d);
    let f2 = string_field(2, m.firmware_type);
    let f3 = optional_field(3, m.nodes, |n: NodeSetView| node_set_bytes(n));
    let m1 = CompareFirmwareObjectRequestView {
        config_json: merged_string(m0.config_json, m.config_json),
        ..m0
    };
    let m2 = CompareFirmwareObjectRequestView {
        firmware_type: merged_string(m0.firmware_type, m.firmware_type),
        ..m1
    };
    if m.config_json.len() == 0 {
        assert(compare_firmware_object_request_bytes(m) + rest =~= f2 + f3 + rest);
        assert(m1 == m0);
    } else {
        let p = encode_utf8(m.config_json);
        assert(compare_firmware_object_request_bytes(m) + rest =~= delimited_field(1, p) + (f2 + f3
            + rest));
        lemma_string_step(m.config_json, f2 + f3 + rest);
        lemma_merge_delimited_field(m0, m1, 1, p, f2 + f3 + rest, depth, step);
    }
    if m.firmware_type.len() == 0 {
        assert(f2 + f3 + rest =~= f3 + rest);
        assert(m1 == m2);
    } else {
        let p = encode_utf8(m.firmware_type);
        assert(f2 + f3 + rest =~= delimited_field(2, p) + (f3 + rest));
        lemma_string_step(m.firmware_type, f3 + rest);
        lemma_merge_delimited_field(m1, m2, 2, p, f3 + rest, depth, step);
    }
    match m.nodes {
        None => {
            assert(f3 + rest =~= rest);
        },
        Some(n) => {
            lemma_optional_node_set_merge_step(m2.nodes, n, rest, depth);
            lemma_merge_delimited_field(
                m2,
                merged_compare_firmware_object_request(m0, m),
                3,
                node_set_bytes(n),
                rest,
                depth,
                step,
            );
        },
    }
}

proof fn lemma_merged_string_from_empty(s: Seq<char>)
    ensures
        merged_string(Seq::empty(), s) == s,
{
    if s.len() == 0 {
        assert(s =~= Seq::<char>::empty());
    }
}

/// Decoding two encoded `NetworkInterface` messages written one after the other gives
/// the second merged into the first: set strings of the second replace those
/// of the first, repeated fields are concatenated, and a nested message
/// present in both is merged in turn.
pub proof fn lemma_network_interface_decodes_concatenation(a: NetworkInterfaceView, b: NetworkInterfaceView)
    requires
        network_interface_bytes(a).len() + network_interface_bytes(b).len() <= u64::MAX,
    ensures
        decode_network_interface_spec(network_interface_bytes(a) + network_interface_bytes(b)) == Some(merged_network_interface(a, b)),
{
    lemma_network_interface_merge(NetworkInterfaceView::empty(), a, network_interface_bytes(b), RECURSION_LIMIT as nat);
    lemma_merged_string_from_empty(a.ip_address);
    assert(merged_network_interface(NetworkInterfaceView::empty(), a) == a);
    lemma_network_interface_merge(a, b, Seq::empty(), RECURSION_LIMIT as nat);
    assert(network_interface_bytes(b) + Seq::<u8>::empty() =~= network_interface_bytes(b));
}

/// Decoding two encoded `Endpoint` messages written one after the other gives
/// the second merged into the first: set strings of the second replace those
/// of the first, repeated fields are concatenated, and a nested message
/// present in both is merged in turn.
pub proof fn lemma_endpoint_decodes_concatenation(a: EndpointView, b: EndpointView)
    requires
        endpoint_bytes(a).len() + endpoint_bytes(b).len() <= u64::MAX,
    ensures
        decode_endpoint_spec(endpoint_bytes(a) + endpoint_bytes(b)) == Some(merged_endpoint(a, b)),
{
    lemma_endpoint_merge(EndpointView::empty(), a, endpoint_bytes(b), RECURSION_LIMIT as nat);
    assert(merged_endpoint(EndpointView::empty(), a) == a);
    lemma_endpoint_merge(a, b, Seq::empty(), RECURSION_LIMIT as nat);
    assert(endpoint_bytes(b) + Seq::<u8>::empty() =~= endpoint_bytes(b));
}

/// Decoding two encoded `NodeInfo` messages written one after the other gives
/// the second merged into the first: set strings of the second replace those
/// of the first, repeated fields are concatenated, and a nested message
/// present in both is merged in turn.
pub proof fn lemma_node_info_decodes_concatenation(a: NodeInfoView, b: NodeInfoView)
    requires
        node_info_bytes(a).len() + node_info_bytes(b).len() <= u64::MAX,
    ensures
        decode_node_info_spec(node_info_bytes(a) + node_info_bytes(b)) == Some(merged_node_info(a, b)),
{
    lemma_node_info_merge(NodeInfoView::empty(), a, node_info_bytes(b), RECURSION_LIMIT as nat);
    lemma_merged_string_from_empty(a.node_id);
    assert(Seq::<EndpointView>::empty() + a.additional_host_endpoints =~= a.additional_host_endpoints);
    assert(merged_node_info(NodeInfoView::empty(), a) == a);
    lemma_node_info_merge(a, b, Seq::empty(), RECURSION_LIMIT as nat);
    assert(node_info_bytes(b) + Seq::<u8>::empty() =~= node_info_bytes(b));
}

/// Decoding two encoded `NodeSet` messages written one after the other gives
/// the second merged into the first: set strings of the second replace those
/// of the first, repeated fields are concatenated, and a nested message
/// present in both is merged in turn.
pub proof fn lemma_node_set_decodes_concatenation(a: NodeSetView, b: NodeSetView)
    requires
        node_set_bytes(a).len() + node_set_bytes(b).len() <= u64::MAX,
    ensures
        decode_node_set_spec(node_set_bytes(a) + node_set_bytes(b)) == Some(merged_node_set(a, b)),
{
    lemma_node_set_merge(NodeSetView::empty(), a, node_set_bytes(b), RECURSION_LIMIT as nat);
    assert(Seq::<NodeInfoView>::empty() + a.nodes =~= a.nodes);
    assert(merged_node_set(NodeSetView::empty(), a) == a);
    lemma_node_set_merge(a, b, Seq::empty(), RECURSION_LIMIT as nat);
    assert(node_set_bytes(b) + Seq::<u8>::empty() =~= node_set_bytes(b));
}

/// Decoding two encoded `BatchGetFirmwareInventoryRequest` messages written one after the other gives
/// the second merged into the first: set strings of the second replace those
/// of the first, repeated fields are concatenated, and a nested message
/// present in both is merged in turn.
pub proof fn lemma_batch_get_firmware_inventory_request_decodes_concatenation(a: BatchGetFirmwareInventoryRequestView, b: BatchGetFirmwareInventoryRequestView)
    requires
        batch_get_firmware_inventory_request_bytes(a).len() + batch_get_firmware_inventory_request_bytes(b).len() <= u64::MAX,
    ensures
        decode_batch_get_firmware_inventory_request_spec(batch_get_firmware_inventory_request_bytes(a) + batch_get_firmware_inventory_request_bytes(b)) == Some(merged_batch_get_firmware_inventory_request(a, b)),
{
    lemma_batch_get_firmware_inventory_request_merge(BatchGetFirmwareInventoryRequestView::empty(), a, batch_get_firmware_inventory_request_bytes(b), RECURSION_LIMIT as nat);
    assert(merged_batch_get_firmware_inventory_request(BatchGetFirmwareInventoryRequestView::empty(), a) == a);
    lemma_batch_get_firmware_inventory_request_merge(a, b, Seq::empty(), RECURSION_LIMIT as nat);
    assert(batch_get_firmware_inventory_request_bytes(b) + Seq::<u8>::empty() =~= batch_get_firmware_inventory_request_bytes(b));
}

/// Decoding two encoded `CompareFirmwareObjectRequest` messages written one after the other gives
/// the second merged into the first: set strings of the second replace those
/// of the first, repeated fields are concatenated, and a nested message
/// present in both is merged in turn.
pub proof fn lemma_compare_firmware_object_request_decodes_concatenation(a: CompareFirmwareObjectRequestView, b: CompareFirmwareObjectRequestView)
    requires
        compare_firmware_object_request_bytes(a).len() + compare_firmware_object_request_bytes(b).len() <= u64::MAX,
    ensures
        decode_compare_firmware_object_request_spec(compare_firmware_object_request_bytes(a) + compare_firmware_object_request_bytes(b)) == Some(merged_compare_firmware_object_request(a, b)),
{
    lemma_compare_firmware_object_request_merge(CompareFirmwareObjectRequestView::empty(), a, compare_firmware_object_request_bytes(b), RECURSION_LIMIT as nat);
    lemma_merged_string_from_empty(a.config_json);
    lemma_merged_string_from_empty(a.firmware_type);
    assert(merged_compare_firmware_object_request(CompareFirmwareObjectRequestView::empty(), a) == a);
    lemma_compare_firmware_object_request_merge(a, b, Seq::empty(), RECURSION_LIMIT as nat);
    assert(compare_firmware_object_request_bytes(b) + Seq::<u8>::empty() =~= compare_firmware_object_request_bytes(b));
}

proof fn lemma_node_set_merge(m0: NodeSetView, m: NodeSetView, rest: Seq<u8>, depth: nat)
    requires
        node_set_bytes(m).len() <= u64::MAX,
        depth >= 3,
    ensures
        merge_node_set(m0, node_set_bytes(m) + rest, depth) == merge_node_set(
            merged_node_set(m0, m),
            rest,
            depth,
        ),
{
    lemma_node_set_nodes(m0, m.nodes, rest, depth);
}

/// Two batch requests written one after the other decode as one request for
/// the nodes of both, in order: the second node set is merged into the first,
/// not put in its place.
pub proof fn lemma_batch_requests_concatenate_their_nodes(a: NodeSetView, b: NodeSetView)
    requires
        node_set_bytes(a).len() + node_set_bytes(b).len() + 40 <= u64::MAX,
    ensures
        decode_batch_get_firmware_inventory_request_spec(
            batch_get_firmware_inventory_request_bytes(
                BatchGetFirmwareInventoryRequestView { nodes: Some(a) },
            ) + batch_get_firmware_inventory_request_bytes(
                BatchGetFirmwareInventoryRequestView { nodes: Some(b) },
            ),
        ) == Some(
            BatchGetFirmwareInventoryRequestView { nodes: Some(NodeSetView { nodes: a.nodes + b.nodes }) },
        ),
{
    let ra = BatchGetFirmwareInventoryRequestView { nodes: Some(a) };
    let rb = BatchGetFirmwareInventoryRequestView { nodes: Some(b) };
    lemma_varint_len_u64(node_set_bytes(a).len());
    lemma_varint_len_u64(node_set_bytes(b).len());
    lemma_varint_len_u64(2 * 8 + 2);
    lemma_batch_get_firmware_inventory_request_decodes_concatenation(ra, rb);
}

} // verus!
