use vstd::prelude::*;
use vstd::bytes::*;
use vstd::slice::*;
use vstd::utf8::*;
use crate::node::{ActionHash, AgentPubKey, GraphError, NodeId, NodeIdView, Timestamp};

verus! {

/// The structured payload that travels in an edge's tag bytes.
#[derive(Clone, Debug, PartialEq, Eq)]
pub struct LinkTagContent {
    /// The caller's own tag.
    pub tag: Option<Vec<u8>>,
    /// On the forward edge of a bidirectional pair: the address of the reverse
    /// edge, so that it can be deleted without a scan.
    pub backlink_action_hash: Option<ActionHash>,
    /// The node this edge points to (anchors keep their label here).
    pub target_node_id: NodeId,
    /// Creation time of the target entity, when the target is an entity.
    pub thing_created_at: Option<Timestamp>,
    /// Creator of the target entity, when the target is an entity.
    pub thing_created_by: Option<AgentPubKey>,
}

/// Mathematical value of a [`LinkTagContent`].
pub struct LinkTagView {
    pub tag: Option<Seq<u8>>,
    pub backlink_action_hash: Option<u64>,
    pub target_node_id: NodeIdView,
    pub thing_created_at: Option<u64>,
    pub thing_created_by: Option<u64>,
}

pub open spec fn opt_bytes_view(o: Option<Vec<u8>>) -> Option<Seq<u8>> {
    match o {
        Some(v) => Some(v@),
        None => None,
    }
}

impl View for LinkTagContent {
    type V = LinkTagView;

    open spec fn view(&self) -> LinkTagView {
        LinkTagView {
            tag: opt_bytes_view(self.tag),
            backlink_action_hash: self.backlink_action_hash,
            target_node_id: self.target_node_id@,
            thing_created_at: self.thing_created_at,
            thing_created_by: self.thing_created_by,
        }
    }
}

pub fn copy_bytes(v: &Vec<u8>) -> (r: Vec<u8>)
    ensures
        r@ == v@,
{
    slice_to_vec(v.as_slice())
}

pub fn copy_opt_bytes(o: &Option<Vec<u8>>) -> (r: Option<Vec<u8>>)
    ensures
        opt_bytes_view(r) == opt_bytes_view(*o),
{
    match o {
        Some(v) => Some(copy_bytes(v)),
        None => None,
    }
}

/// Whether two optional byte strings are equal.
pub fn same_opt_bytes(a: &Option<Vec<u8>>, b: &Option<Vec<u8>>) -> (r: bool)
    ensures
        r == (opt_bytes_view(*a) == opt_bytes_view(*b)),
{
    if a.is_none() || b.is_none() {
        return a.is_none() && b.is_none();
    }
    let x = a.as_ref().unwrap();
    let y = b.as_ref().unwrap();
    assert(opt_bytes_view(*a) == Some(x@));
    assert(opt_bytes_view(*b) == Some(y@));
    if x.len() != y.len() {
        return false;
    }
    let mut i: usize = 0;
    while i < x.len()
        invariant
            opt_bytes_view(*a) == Some(x@),
            opt_bytes_view(*b) == Some(y@),
            x@.len() == y@.len(),
            i <= x@.len(),
            forall|k: int| 0 <= k < i ==> x@[k] == y@[k],
        decreases x@.len() - i,
    {
        if x[i] != y[i] {
            assert(x@[i as int] != y@[i as int]);
            return false;
        }
        i = i + 1;
    }
    assert(x@ =~= y@);
    true
}

impl LinkTagContent {
    /// A copy of this payload.
    pub fn duplicate(&self) -> (r: LinkTagContent)
        ensures
            r@ == self@,
    {
        LinkTagContent {
            tag: copy_opt_bytes(&self.tag),
            backlink_action_hash: self.backlink_action_hash,
            target_node_id: self.target_node_id.duplicate(),
            thing_created_at: self.thing_created_at,
            thing_created_by: self.thing_created_by,
        }
    }
}

// ---------------------------------------------------------------------------
// Wire format. Every field is written in order: an optional value is a byte 0
// (absent) or 1 followed by the value; a number is 8 bytes little-endian; a
// byte string is its length as a number followed by the bytes; a node is a
// byte 0 (identity), 1 (anchor, its label as UTF-8 bytes) or 2 (entity)
// followed by its key.
// ---------------------------------------------------------------------------

pub open spec fn enc_u64(x: u64) -> Seq<u8> {
    spec_u64_to_le_bytes(x)
}

pub open spec fn enc_len_bytes(b: Seq<u8>) -> Seq<u8> {
    enc_u64(b.len() as u64) + b
}

pub open spec fn enc_opt_bytes(o: Option<Seq<u8>>) -> Seq<u8> {
    match o {
        None => seq![0u8],
        Some(b) => seq![1u8] + enc_len_bytes(b),
    }
}

pub open spec fn enc_opt_u64(o: Option<u64>) -> Seq<u8> {
    match o {
        None => seq![0u8],
        Some(x) => seq![1u8] + enc_u64(x),
    }
}

pub open spec fn enc_node(n: NodeIdView) -> Seq<u8> {
    match n {
        NodeIdView::Agent(a) => seq![0u8] + enc_u64(a),
        NodeIdView::Anchor(s) => seq![1u8] + enc_len_bytes(encode_utf8(s)),
        NodeIdView::Thing(h) => seq![2u8] + enc_u64(h),
    }
}

/// The bytes of a tag payload.
pub open spec fn encode_tag(p: LinkTagView) -> Seq<u8> {
    enc_opt_bytes(p.tag) + (enc_opt_u64(p.backlink_action_hash) + (enc_node(p.target_node_id) + (
    enc_opt_u64(p.thing_created_at) + enc_opt_u64(p.thing_created_by))))
}

pub open spec fn dec_u64(s: Seq<u8>) -> Option<(u64, Seq<u8>)> {
    if s.len() >= 8 {
        Some((spec_u64_from_le_bytes(s.take(8)), s.skip(8)))
    } else {
        None
    }
}

pub open spec fn dec_len_bytes(s: Seq<u8>) -> Option<(Seq<u8>, Seq<u8>)> {
    match dec_u64(s) {
        Some((n, r)) => if n <= r.len() {
            Some((r.take(n as int), r.skip(n as int)))
        } else {
            None
        },
        None => None,
    }
}

pub open spec fn dec_opt_bytes(s: Seq<u8>) -> Option<(Option<Seq<u8>>, Seq<u8>)> {
    if s.len() == 0 {
        None
    } else if s[0] == 0 {
        Some((None, s.skip(1)))
    } else if s[0] == 1 {
        match dec_len_bytes(s.skip(1)) {
            Some((b, r)) => Some((Some(b), r)),
            None => None,
        }
    } else {
        None
    }
}

pub open spec fn dec_opt_u64(s: Seq<u8>) -> Option<(Option<u64>, Seq<u8>)> {
    if s.len() == 0 {
        None
    } else if s[0] == 0 {
        Some((None, s.skip(1)))
    } else if s[0] == 1 {
        match dec_u64(s.skip(1)) {
            Some((x, r)) => Some((Some(x), r)),
            None => None,
        }
    } else {
        None
    }
}

pub open spec fn dec_node(s: Seq<u8>) -> Option<(NodeIdView, Seq<u8>)> {
    if s.len() == 0 {
        None
    } else if s[0] == 0 {
        match dec_u64(s.skip(1)) {
            Some((x, r)) => Some((NodeIdView::Agent(x), r)),
            None => None,
        }
    } else if s[0] == 1 {
        match dec_len_bytes(s.skip(1)) {
            Some((b, r)) => if valid_utf8(b) {
                Some((NodeIdView::Anchor(decode_utf8(b)), r))
            } else {
                None
            },
            None => None,
        }
    } else if s[0] == 2 {
        match dec_u64(s.skip(1)) {
            Some((x, r)) => Some((NodeIdView::Thing(x), r)),
            None => None,
        }
    } else {
        None
    }
}

/// The payload that a byte string holds, if it holds exactly one and nothing more.
pub open spec fn decode_tag(s: Seq<u8>) -> Option<LinkTagView> {
    match dec_opt_bytes(s) {
        None => None,
        Some((tag, s1)) => match dec_opt_u64(s1) {
            None => None,
            Some((backlink, s2)) => match dec_node(s2) {
                None => None,
                Some((target, s3)) => match dec_opt_u64(s3) {
                    None => None,
                    Some((created_at, s4)) => match dec_opt_u64(s4) {
                        None => None,
                        Some((created_by, s5)) => if s5.len() == 0 {
                            Some(
                                LinkTagView {
                                    tag,
                                    backlink_action_hash: backlink,
                                    target_node_id: target,
                                    thing_created_at: created_at,
                                    thing_created_by: created_by,
                                },
                            )
                        } else {
                            None
                        },
                    },
                },
            },
        },
    }
}

/// A payload whose byte strings are short enough for their length to be written.
pub open spec fn encodable(p: LinkTagView) -> bool {
    &&& (p.tag matches Some(b) ==> b.len() <= u64::MAX)
    &&& (p.target_node_id matches NodeIdView::Anchor(s) ==> encode_utf8(s).len() <= u64::MAX)
}

// ---------------------------------------------------------------------------
// Round trip of each field.
// ---------------------------------------------------------------------------

proof fn lemma_u64_round_trip(x: u64, rest: Seq<u8>)
    ensures
        dec_u64(enc_u64(x) + rest) == Some((x, rest)),
{
    lemma_auto_spec_u64_to_from_le_bytes();
    let s = enc_u64(x) + rest;
    assert(s.take(8) =~= enc_u64(x));
    assert(s.skip(8) =~= rest);
}

proof fn lemma_len_bytes_round_trip(b: Seq<u8>, rest: Seq<u8>)
    requires
        b.len() <= u64::MAX,
    ensures
        dec_len_bytes(enc_len_bytes(b) + rest) == Some((b, rest)),
{
    let n = b.len() as u64;
    assert(enc_len_bytes(b) + rest =~= enc_u64(n) + (b + rest));
    lemma_u64_round_trip(n, b + rest);
    assert((b + rest).take(n as int) =~= b);
    assert((b + rest).skip(n as int) =~= rest);
}

proof fn lemma_opt_bytes_round_trip(o: Option<Seq<u8>>, rest: Seq<u8>)
    requires
        o matches Some(b) ==> b.len() <= u64::MAX,
    ensures
        dec_opt_bytes(enc_opt_bytes(o) + rest) == Some((o, rest)),
{
    let s = enc_opt_bytes(o) + rest;
    match o {
        None => {
            assert(s.skip(1) =~= rest);
        },
        Some(b) => {
            assert(s.skip(1) =~= enc_len_bytes(b) + rest);
            lemma_len_bytes_round_trip(b, rest);
        },
    }
}

proof fn lemma_opt_u64_round_trip(o: Option<u64>, rest: Seq<u8>)
    ensures
        dec_opt_u64(enc_opt_u64(o) + rest) == Some((o, rest)),
{
    let s = enc_opt_u64(o) + rest;
    match o {
        None => {
            assert(s.skip(1) =~= rest);
        },
        Some(x) => {
            assert(s.skip(1) =~= enc_u64(x) + rest);
            lemma_u64_round_trip(x, rest);
        },
    }
}

proof fn lemma_node_round_trip(n: NodeIdView, rest: Seq<u8>)
    requires
        n matches NodeIdView::Anchor(l) ==> encode_utf8(l).len() <= u64::MAX,
    ensures
        dec_node(enc_node(n) + rest) == Some((n, rest)),
{
    let s = enc_node(n) + rest;
    match n {
        NodeIdView::Agent(a) => {
            assert(s.skip(1) =~= enc_u64(a) + rest);
            lemma_u64_round_trip(a, rest);
        },
        NodeIdView::Anchor(l) => {
            assert(s.skip(1) =~= enc_len_bytes(encode_utf8(l)) + rest);
            lemma_len_bytes_round_trip(encode_utf8(l), rest);
            encode_utf8_valid_utf8(l);
            encode_utf8_decode_utf8(l);
        },
        NodeIdView::Thing(h) => {
            assert(s.skip(1) =~= enc_u64(h) + rest);
            lemma_u64_round_trip(h, rest);
        },
    }
}

/// Decoding the bytes of a payload gives the payload back.
pub proof fn law_tag_round_trip(p: LinkTagView)
    requires
        encodable(p),
    ensures
        decode_tag(encode_tag(p)) == Some(p),
{
    let e5 = enc_opt_u64(p.thing_created_by);
    let e4 = enc_opt_u64(p.thing_created_at) + e5;
    let e3 = enc_node(p.target_node_id) + e4;
    let e2 = enc_opt_u64(p.backlink_action_hash) + e3;
    lemma_opt_bytes_round_trip(p.tag, e2);
    lemma_opt_u64_round_trip(p.backlink_action_hash, e3);
    lemma_node_round_trip(p.target_node_id, e4);
    lemma_opt_u64_round_trip(p.thing_created_at, e5);
    assert(e5 =~= e5 + Seq::<u8>::empty());
    lemma_opt_u64_round_trip(p.thing_created_by, Seq::<u8>::empty());
}

// ---------------------------------------------------------------------------
// Only encodings decode.
// ---------------------------------------------------------------------------

proof fn lemma_u64_exact(s: Seq<u8>)
    ensures
        dec_u64(s) matches Some((x, r)) ==> enc_u64(x) + r == s,
{
    if s.len() >= 8 {
        lemma_auto_spec_u64_to_from_le_bytes();
        assert(spec_u64_to_le_bytes(spec_u64_from_le_bytes(s.take(8))) == s.take(8));
        assert(s.take(8) + s.skip(8) =~= s);
    }
}

proof fn lemma_len_bytes_exact(s: Seq<u8>)
    ensures
        dec_len_bytes(s) matches Some((b, r)) ==> enc_len_bytes(b) + r == s && b.len() <= u64::MAX,
{
    lemma_u64_exact(s);
    if let Some((n, rest)) = dec_u64(s) {
        if n <= rest.len() {
            let b = rest.take(n as int);
            assert(b.len() == n);
            assert(b + rest.skip(n as int) =~= rest);
            assert(enc_len_bytes(b) + rest.skip(n as int) =~= enc_u64(n) + rest);
        }
    }
}

proof fn lemma_opt_bytes_exact(s: Seq<u8>)
    ensures
        dec_opt_bytes(s) matches Some((o, r)) ==> enc_opt_bytes(o) + r == s && (o matches Some(b)
            ==> b.len() <= u64::MAX),
{
    if s.len() > 0 {
        assert(seq![s[0]] + s.skip(1) =~= s);
        lemma_len_bytes_exact(s.skip(1));
        if s[0] == 1 {
            if let Some((b, r)) = dec_len_bytes(s.skip(1)) {
                assert(seq![1u8] + enc_len_bytes(b) + r =~= seq![1u8] + (enc_len_bytes(b) + r));
            }
        }
    }
}

proof fn lemma_opt_u64_exact(s: Seq<u8>)
    ensures
        dec_opt_u64(s) matches Some((o, r)) ==> enc_opt_u64(o) + r == s,
{
    if s.len() > 0 {
        assert(seq![s[0]] + s.skip(1) =~= s);
        lemma_u64_exact(s.skip(1));
        if s[0] == 1 {
            if let Some((x, r)) = dec_u64(s.skip(1)) {
                assert(seq![1u8] + enc_u64(x) + r =~= seq![1u8] + (enc_u64(x) + r));
            }
        }
    }
}

proof fn lemma_node_exact(s: Seq<u8>)
    ensures
        dec_node(s) matches Some((n, r)) ==> enc_node(n) + r == s && (n matches NodeIdView::Anchor(
            l,
        ) ==> encode_utf8(l).len() <= u64::MAX),
{
    if s.len() > 0 {
        assert(seq![s[0]] + s.skip(1) =~= s);
        lemma_u64_exact(s.skip(1));
        lemma_len_bytes_exact(s.skip(1));
        if s[0] == 0 || s[0] == 2 {
            if let Some((x, r)) = dec_u64(s.skip(1)) {
                assert(seq![s[0]] + enc_u64(x) + r =~= seq![s[0]] + (enc_u64(x) + r));
            }
        } else if s[0] == 1 {
            if let Some((b, r)) = dec_len_bytes(s.skip(1)) {
                if valid_utf8(b) {
                    decode_utf8_encode_utf8(b);
                    assert(seq![1u8] + enc_len_bytes(b) + r =~= seq![1u8] + (enc_len_bytes(b) + r));
                }
            }
        }
    }
}

/// Only the bytes of a payload decode, and they decode to that payload: a
/// byte string that decodes is the encoding of what it decodes to.
pub proof fn law_tag_decode_exact(s: Seq<u8>)
    ensures
        decode_tag(s) matches Some(p) ==> encodable(p) && encode_tag(p) == s,
{
    lemma_opt_bytes_exact(s);
    if let Some((tag, s1)) = dec_opt_bytes(s) {
        lemma_opt_u64_exact(s1);
        if let Some((backlink, s2)) = dec_opt_u64(s1) {
            lemma_node_exact(s2);
            if let Some((target, s3)) = dec_node(s2) {
                lemma_opt_u64_exact(s3);
                if let Some((created_at, s4)) = dec_opt_u64(s3) {
                    lemma_opt_u64_exact(s4);
                    if let Some((created_by, s5)) = dec_opt_u64(s4) {
                        if s5.len() == 0 {
                            assert(enc_opt_u64(created_by) + s5 =~= enc_opt_u64(created_by));
                        }
                    }
                }
            }
        }
    }
}

// ---------------------------------------------------------------------------
// Encoder.
// ---------------------------------------------------------------------------

fn write_u64(out: &mut Vec<u8>, x: u64)
    ensures
        final(out)@ == old(out)@ + enc_u64(x),
{
    let mut b = u64_to_le_bytes(x);
    out.append(&mut b);
}

fn write_len_bytes(out: &mut Vec<u8>, b: &[u8])
    ensures
        final(out)@ == old(out)@ + enc_len_bytes(b@),
{
    write_u64(out, b.len() as u64);
    let mut v = slice_to_vec(b);
    out.append(&mut v);
    assert(final(out)@ =~= old(out)@ + enc_len_bytes(b@));
}

fn write_opt_u64(out: &mut Vec<u8>, o: Option<u64>)
    ensures
        final(out)@ == old(out)@ + enc_opt_u64(o),
{
    match o {
        None => {
            out.push(0u8);
            assert(final(out)@ =~= old(out)@ + enc_opt_u64(o));
        },
        Some(x) => {
            out.push(1u8);
            write_u64(out, x);
            assert(final(out)@ =~= old(out)@ + enc_opt_u64(o));
        },
    }
}

fn write_node(out: &mut Vec<u8>, n: &NodeId)
    ensures
        final(out)@ == old(out)@ + enc_node(n@),
{
    match n {
        NodeId::Agent(a) => {
            out.push(0u8);
            write_u64(out, *a);
        },
        NodeId::Anchor(l) => {
            out.push(1u8);
            write_len_bytes(out, l.as_str().as_bytes());
        },
        NodeId::Thing(h) => {
            out.push(2u8);
            write_u64(out, *h);
        },
    }
    assert(final(out)@ =~= old(out)@ + enc_node(n@));
}

/// Encodes a tag payload into the bytes stored on an edge.
pub fn serialize_link_tag(link_tag_content: &LinkTagContent) -> (r: Vec<u8>)
    ensures
        r@ == encode_tag(link_tag_content@),
{
    let p = link_tag_content;
    let mut out: Vec<u8> = Vec::new();
    match &p.tag {
        None => {
            out.push(0u8);
        },
        Some(t) => {
            out.push(1u8);
            write_len_bytes(&mut out, t.as_slice());
        },
    }
    assert(out@ =~= enc_opt_bytes(p@.tag));
    write_opt_u64(&mut out, p.backlink_action_hash);
    write_node(&mut out, &p.target_node_id);
    write_opt_u64(&mut out, p.thing_created_at);
    write_opt_u64(&mut out, p.thing_created_by);
    assert(out@ =~= encode_tag(p@));
    out
}

// ---------------------------------------------------------------------------
// Decoder: each reader takes the position of the unread rest.
// ---------------------------------------------------------------------------

/// Relies on std's `String::from_utf8`: it succeeds exactly on valid UTF-8,
/// and the string then holds those bytes.
#[verifier::external_body]
fn string_from_utf8(v: Vec<u8>) -> (r: Option<String>)
    ensures
        r is Some <==> valid_utf8(v@),
        r matches Some(s) ==> encode_utf8(s@) == v@,
{
    String::from_utf8(v).ok()
}

fn read_u64(b: &[u8], pos: usize) -> (r: Option<(u64, usize)>)
    requires
        pos <= b@.len(),
    ensures
        match dec_u64(b@.skip(pos as int)) {
            Some((x, rest)) => r matches Some((y, p)) && y == x && p <= b@.len() && b@.skip(
                p as int,
            ) == rest,
            None => r is None,
        },
{
    if b.len() - pos < 8 {
        return None;
    }
    let x = u64_from_le_bytes(slice_subrange(b, pos, pos + 8));
    assert(b@.subrange(pos as int, pos + 8) =~= b@.skip(pos as int).take(8));
    assert(b@.skip(pos + 8) =~= b@.skip(pos as int).skip(8));
    Some((x, pos + 8))
}

fn read_len_bytes(b: &[u8], pos: usize) -> (r: Option<(Vec<u8>, usize)>)
    requires
        pos <= b@.len(),
    ensures
        match dec_len_bytes(b@.skip(pos as int)) {
            Some((v, rest)) => r matches Some((w, p)) && w@ == v && p <= b@.len() && b@.skip(
                p as int,
            ) == rest,
            None => r is None,
        },
{
    match read_u64(b, pos) {
        None => None,
        Some((n, p)) => {
            let avail: usize = b.len() - p;
            if n > avail as u64 {
                return None;
            }
            let k: usize = n as usize;
            let v = slice_to_vec(slice_subrange(b, p, p + k));
            assert(v@ =~= b@.skip(p as int).take(n as int));
            assert(b@.skip(p + k) =~= b@.skip(p as int).skip(n as int));
            Some((v, p + k))
        },
    }
}

fn read_opt_bytes(b: &[u8], pos: usize) -> (r: Option<(Option<Vec<u8>>, usize)>)
    requires
        pos <= b@.len(),
    ensures
        match dec_opt_bytes(b@.skip(pos as int)) {
            Some((v, rest)) => r matches Some((w, p)) && opt_bytes_view(w) == v && p <= b@.len()
                && b@.skip(p as int) == rest,
            None => r is None,
        },
{
    if pos == b.len() {
        return None;
    }
    let flag = b[pos];
    assert(b@.skip(pos as int)[0] == flag);
    assert(b@.skip(pos + 1) =~= b@.skip(pos as int).skip(1));
    if flag == 0 {
        Some((None, pos + 1))
    } else if flag == 1 {
        match read_len_bytes(b, pos + 1) {
            Some((v, p)) => Some((Some(v), p)),
            None => None,
        }
    } else {
        None
    }
}

fn read_opt_u64(b: &[u8], pos: usize) -> (r: Option<(Option<u64>, usize)>)
    requires
        pos <= b@.len(),
    ensures
        match dec_opt_u64(b@.skip(pos as int)) {
            Some((v, rest)) => r matches Some((w, p)) && w == v && p <= b@.len() && b@.skip(
                p as int,
            ) == rest,
            None => r is None,
        },
{
    if pos == b.len() {
        return None;
    }
    let flag = b[pos];
    assert(b@.skip(pos as int)[0] == flag);
    assert(b@.skip(pos + 1) =~= b@.skip(pos as int).skip(1));
    if flag == 0 {
        Some((None, pos + 1))
    } else if flag == 1 {
        match read_u64(b, pos + 1) {
            Some((x, p)) => Some((Some(x), p)),
            None => None,
        }
    } else {
        None
    }
}

fn read_node(b: &[u8], pos: usize) -> (r: Option<(NodeId, usize)>)
    requires
        pos <= b@.len(),
    ensures
        match dec_node(b@.skip(pos as int)) {
            Some((v, rest)) => r matches Some((w, p)) && w@ == v && p <= b@.len() && b@.skip(
                p as int,
            ) == rest,
            None => r is None,
        },
{
    if pos == b.len() {
        return None;
    }
    let flag = b[pos];
    assert(b@.skip(pos as int)[0] == flag);
    assert(b@.skip(pos + 1) =~= b@.skip(pos as int).skip(1));
    if flag == 0 {
        match read_u64(b, pos + 1) {
            Some((x, p)) => Some((NodeId::Agent(x), p)),
            None => None,
        }
    } else if flag == 1 {
        match read_len_bytes(b, pos + 1) {
            Some((v, p)) => {
                let ghost bytes = v@;
                match string_from_utf8(v) {
                    Some(s) => {
                        proof {
                            decode_utf8_encode_utf8(bytes);
                            encode_utf8_decode_utf8(s@);
                        }
                        Some((NodeId::Anchor(s), p))
                    },
                    None => None,
                }
            },
            None => None,
        }
    } else if flag == 2 {
        match read_u64(b, pos + 1) {
            Some((x, p)) => Some((NodeId::Thing(x), p)),
            None => None,
        }
    } else {
        None
    }
}

/// Decodes the bytes of an edge's tag; fails on truncated, malformed or
/// over-long input.
pub fn deserialize_link_tag(tag: &Vec<u8>) -> (r: Result<LinkTagContent, GraphError>)
    ensures
        match decode_tag(tag@) {
            Some(p) => r matches Ok(c) && c@ == p,
            None => r == Err::<LinkTagContent, GraphError>(GraphError::DecodeError),
        },
{
    let b = tag.as_slice();
    assert(b@.skip(0) =~= b@);
    let (t, p1) = match read_opt_bytes(b, 0) {
        Some(x) => x,
        None => return Err(GraphError::DecodeError),
    };
    let (backlink, p2) = match read_opt_u64(b, p1) {
        Some(x) => x,
        None => return Err(GraphError::DecodeError),
    };
    let (target, p3) = match read_node(b, p2) {
        Some(x) => x,
        None => return Err(GraphError::DecodeError),
    };
    let (created_at, p4) = match read_opt_u64(b, p3) {
        Some(x) => x,
        None => return Err(GraphError::DecodeError),
    };
    let (created_by, p5) = match read_opt_u64(b, p4) {
        Some(x) => x,
        None => return Err(GraphError::DecodeError),
    };
    if p5 != b.len() {
        return Err(GraphError::DecodeError);
    }
    Ok(
        LinkTagContent {
            tag: t,
            backlink_action_hash: backlink,
            target_node_id: target,
            thing_created_at: created_at,
            thing_created_by: created_by,
        },
    )
}

/// The payload of a tag from its parts.
pub open spec fn tag_view(
    tag: Option<Seq<u8>>,
    backlink_action_hash: Option<u64>,
    target_node_id: NodeIdView,
    thing_created_at: Option<u64>,
    thing_created_by: Option<u64>,
) -> LinkTagView {
    LinkTagView { tag, backlink_action_hash, target_node_id, thing_created_at, thing_created_by }
}

/// A tag that points to an entity must carry the entity's creation metadata.
pub open spec fn tag_derivable(
    target_node_id: NodeIdView,
    thing_created_at: Option<u64>,
    thing_created_by: Option<u64>,
) -> bool {
    target_node_id is Thing ==> thing_created_at is Some && thing_created_by is Some
}

/// Builds a tag payload and its bytes. Fails with `InvariantViolation` when the
/// target is an entity and its creation metadata is missing.
pub fn derive_link_tag(
    input: Option<Vec<u8>>,
    backlink_action_hash: Option<ActionHash>,
    target_node_id: NodeId,
    thing_created_at: Option<Timestamp>,
    thing_created_by: Option<AgentPubKey>,
) -> (r: Result<(Vec<u8>, LinkTagContent), GraphError>)
    ensures
        tag_derivable(target_node_id@, thing_created_at, thing_created_by) ==> (r matches Ok(
            (b, c),
        ) && c@ == tag_view(
            opt_bytes_view(input),
            backlink_action_hash,
            target_node_id@,
            thing_created_at,
            thing_created_by,
        ) && b@ == encode_tag(c@)),
        !tag_derivable(target_node_id@, thing_created_at, thing_created_by) ==> r == Err::<
            (Vec<u8>, LinkTagContent),
            GraphError,
        >(GraphError::InvariantViolation),
{
    if let NodeId::Thing(_) = target_node_id {
        if thing_created_at.is_none() || thing_created_by.is_none() {
            return Err(GraphError::InvariantViolation);
        }
    }
    let link_tag_content = LinkTagContent {
        tag: input,
        backlink_action_hash,
        target_node_id,
        thing_created_at,
        thing_created_by,
    };
    let serialized_content = serialize_link_tag(&link_tag_content);
    Ok((serialized_content, link_tag_content))
}

} // verus!
