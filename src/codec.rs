use vstd::prelude::*;
use crate::bytes::bytes_equal;
use crate::error::CoreError;

verus! {

/// A structured account/device address.
pub struct Jid {
    pub user: Vec<u8>,
    pub server: Vec<u8>,
    pub agent: u8,
    pub device: u16,
}

/// An attribute value: a byte string or an address.
pub enum AttrValue {
    Text(Vec<u8>),
    Jid(Jid),
}

/// One attribute of a node.
pub struct Attr {
    pub key: Vec<u8>,
    pub value: AttrValue,
}

/// What a node carries besides its tag and attributes.
pub enum Content {
    Empty,
    Bytes(Vec<u8>),
    Children(Vec<Node>),
}

/// A protocol message tree.
pub struct Node {
    pub tag: Vec<u8>,
    pub attrs: Vec<Attr>,
    pub content: Content,
}

pub struct JidV {
    pub user: Seq<u8>,
    pub server: Seq<u8>,
    pub agent: u8,
    pub device: u16,
}

pub enum ValueV {
    Text(Seq<u8>),
    Jid(JidV),
}

pub struct AttrV {
    pub key: Seq<u8>,
    pub value: ValueV,
}

pub enum ContentV {
    Empty,
    Bytes(Seq<u8>),
    Children(Seq<NodeV>),
}

/// A message tree as a mathematical value.
pub struct NodeV {
    pub tag: Seq<u8>,
    pub attrs: Seq<AttrV>,
    pub content: ContentV,
}

impl View for Jid {
    type V = JidV;

    open spec fn view(&self) -> JidV {
        JidV { user: self.user@, server: self.server@, agent: self.agent, device: self.device }
    }
}

impl View for AttrValue {
    type V = ValueV;

    open spec fn view(&self) -> ValueV {
        match self {
            AttrValue::Text(s) => ValueV::Text(s@),
            AttrValue::Jid(j) => ValueV::Jid(j@),
        }
    }
}

impl View for Attr {
    type V = AttrV;

    open spec fn view(&self) -> AttrV {
        AttrV { key: self.key@, value: self.value@ }
    }
}

/// The value of a tree.
pub open spec fn node_view(n: Node) -> NodeV
    decreases n,
{
    NodeV {
        tag: n.tag@,
        attrs: n.attrs@.map_values(|a: Attr| a@),
        content: match n.content {
            Content::Empty => ContentV::Empty,
            Content::Bytes(b) => ContentV::Bytes(b@),
            Content::Children(c) => ContentV::Children(children_view(c@, c@.len())),
        },
    }
}

/// The values of the first `k` trees of `c`.
pub open spec fn children_view(c: Seq<Node>, k: nat) -> Seq<NodeV>
    decreases c, k,
{
    if k == 0 || k > c.len() {
        Seq::empty()
    } else {
        children_view(c, (k - 1) as nat).push(node_view(c[k - 1]))
    }
}

impl View for Node {
    type V = NodeV;

    open spec fn view(&self) -> NodeV {
        node_view(*self)
    }
}

/// Marks a literal string with a one-byte length.
pub const STR8: u8 = 0xFC;

/// Marks a literal string with a two-byte length.
pub const STR16: u8 = 0xFD;

/// Marks a literal string with a four-byte length.
pub const STR32: u8 = 0xFE;

/// Marks an address attribute value.
pub const JID_MARK: u8 = 0xFA;

/// Content markers.
pub const CONTENT_EMPTY: u8 = 0;
pub const CONTENT_BYTES: u8 = 1;
pub const CONTENT_LIST: u8 = 2;

/// How deeply trees may nest.
pub const MAX_DEPTH: u32 = 64;

/// How many strings the token dictionary holds.
pub const TOKEN_COUNT: u8 = 20;

/// Token `i` of the dictionary, for `1 <= i <= TOKEN_COUNT`.
pub open spec fn token(i: u8) -> Seq<u8> {
    if i == 1 {
        seq![105u8, 113u8]
    } else if i == 2 {
        seq![105u8, 100u8]
    } else if i == 3 {
        seq![116u8, 121u8, 112u8, 101u8]
    } else if i == 4 {
        seq![116u8, 111u8]
    } else if i == 5 {
        seq![102u8, 114u8, 111u8, 109u8]
    } else if i == 6 {
        seq![120u8, 109u8, 108u8, 110u8, 115u8]
    } else if i == 7 {
        seq![114u8, 101u8, 115u8, 117u8, 108u8, 116u8]
    } else if i == 8 {
        seq![103u8, 101u8, 116u8]
    } else if i == 9 {
        seq![115u8, 101u8, 116u8]
    } else if i == 10 {
        seq![109u8, 101u8, 115u8, 115u8, 97u8, 103u8, 101u8]
    } else if i == 11 {
        seq![115u8, 46u8, 119u8, 104u8, 97u8, 116u8, 115u8, 97u8, 112u8, 112u8, 46u8, 110u8, 101u8, 116u8]
    } else if i == 12 {
        seq![103u8, 46u8, 117u8, 115u8]
    } else if i == 13 {
        seq![114u8, 101u8, 99u8, 101u8, 105u8, 112u8, 116u8]
    } else if i == 14 {
        seq![110u8, 111u8, 116u8, 105u8, 102u8, 105u8, 99u8, 97u8, 116u8, 105u8, 111u8, 110u8]
    } else if i == 15 {
        seq![97u8, 99u8, 107u8]
    } else if i == 16 {
        seq![112u8, 114u8, 101u8, 115u8, 101u8, 110u8, 99u8, 101u8]
    } else if i == 17 {
        seq![101u8, 114u8, 114u8, 111u8, 114u8]
    } else if i == 18 {
        seq![101u8, 110u8, 99u8]
    } else if i == 19 {
        seq![112u8, 97u8, 114u8, 116u8, 105u8, 99u8, 105u8, 112u8, 97u8, 110u8, 116u8]
    } else if i == 20 {
        seq![119u8, 58u8, 112u8]
    } else {
        Seq::empty()
    }
}

/// The index of the first token equal to `s`, or `0` when none is.
pub open spec fn token_index(s: Seq<u8>) -> u8 {
    if s == token(1) {
        1
    } else if s == token(2) {
        2
    } else if s == token(3) {
        3
    } else if s == token(4) {
        4
    } else if s == token(5) {
        5
    } else if s == token(6) {
        6
    } else if s == token(7) {
        7
    } else if s == token(8) {
        8
    } else if s == token(9) {
        9
    } else if s == token(10) {
        10
    } else if s == token(11) {
        11
    } else if s == token(12) {
        12
    } else if s == token(13) {
        13
    } else if s == token(14) {
        14
    } else if s == token(15) {
        15
    } else if s == token(16) {
        16
    } else if s == token(17) {
        17
    } else if s == token(18) {
        18
    } else if s == token(19) {
        19
    } else if s == token(20) {
        20
    } else {
        0
    }
}

/// Token `i` of the dictionary.
pub fn token_bytes(i: u8) -> (r: Vec<u8>)
    requires
        1 <= i <= TOKEN_COUNT,
    ensures
        r@ == token(i),
{
    let v = match i {
        1 => vec![105u8, 113u8],
        2 => vec![105u8, 100u8],
        3 => vec![116u8, 121u8, 112u8, 101u8],
        4 => vec![116u8, 111u8],
        5 => vec![102u8, 114u8, 111u8, 109u8],
        6 => vec![120u8, 109u8, 108u8, 110u8, 115u8],
        7 => vec![114u8, 101u8, 115u8, 117u8, 108u8, 116u8],
        8 => vec![103u8, 101u8, 116u8],
        9 => vec![115u8, 101u8, 116u8],
        10 => vec![109u8, 101u8, 115u8, 115u8, 97u8, 103u8, 101u8],
        11 => vec![115u8, 46u8, 119u8, 104u8, 97u8, 116u8, 115u8, 97u8, 112u8, 112u8, 46u8, 110u8, 101u8, 116u8],
        12 => vec![103u8, 46u8, 117u8, 115u8],
        13 => vec![114u8, 101u8, 99u8, 101u8, 105u8, 112u8, 116u8],
        14 => vec![110u8, 111u8, 116u8, 105u8, 102u8, 105u8, 99u8, 97u8, 116u8, 105u8, 111u8, 110u8],
        15 => vec![97u8, 99u8, 107u8],
        16 => vec![112u8, 114u8, 101u8, 115u8, 101u8, 110u8, 99u8, 101u8],
        17 => vec![101u8, 114u8, 114u8, 111u8, 114u8],
        18 => vec![101u8, 110u8, 99u8],
        19 => vec![112u8, 97u8, 114u8, 116u8, 105u8, 99u8, 105u8, 112u8, 97u8, 110u8, 116u8],
        20 => vec![119u8, 58u8, 112u8],
        _ => Vec::new(),
    };
    assert(v@ =~= token(i));
    v
}

pub open spec fn be16(n: nat) -> Seq<u8> {
    seq![((n / 0x100) % 0x100) as u8, (n % 0x100) as u8]
}

pub open spec fn be32(n: nat) -> Seq<u8> {
    seq![((n / 0x100_0000) % 0x100) as u8, ((n / 0x1_0000) % 0x100) as u8, ((n / 0x100) % 0x100) as u8, (n % 0x100) as u8]
}

pub open spec fn read16(b: Seq<u8>, pos: int) -> nat {
    (b[pos] as nat) * 0x100 + (b[pos + 1] as nat)
}

pub open spec fn read32(b: Seq<u8>, pos: int) -> nat {
    (b[pos] as nat) * 0x100_0000 + (b[pos + 1] as nat) * 0x1_0000 + (b[pos + 2] as nat) * 0x100 + (b[pos + 3] as nat)
}

/// A string: its token when it has one, else a literal whose length prefix
/// is as narrow as the length allows.
pub open spec fn enc_str(s: Seq<u8>) -> Seq<u8> {
    let t = token_index(s);
    if t != 0 {
        seq![t]
    } else if s.len() < 0x100 {
        seq![STR8, s.len() as u8] + s
    } else if s.len() < 0x1_0000 {
        seq![STR16] + be16(s.len()) + s
    } else {
        seq![STR32] + be32(s.len()) + s
    }
}

pub open spec fn enc_jid(j: JidV) -> Seq<u8> {
    seq![JID_MARK] + enc_str(j.user) + enc_str(j.server) + seq![j.agent] + be16(j.device as nat)
}

pub open spec fn enc_value(v: ValueV) -> Seq<u8> {
    match v {
        ValueV::Text(s) => enc_str(s),
        ValueV::Jid(j) => enc_jid(j),
    }
}

pub open spec fn enc_attr(a: AttrV) -> Seq<u8> {
    enc_str(a.key) + enc_value(a.value)
}

/// The first `k` attributes of `a`, one after another.
pub open spec fn enc_attrs(a: Seq<AttrV>, k: nat) -> Seq<u8>
    decreases k,
{
    if k == 0 || k > a.len() {
        Seq::empty()
    } else {
        enc_attrs(a, (k - 1) as nat) + enc_attr(a[k - 1])
    }
}

pub open spec fn enc_content(c: ContentV) -> Seq<u8>
    decreases c,
{
    match c {
        ContentV::Empty => seq![CONTENT_EMPTY],
        ContentV::Bytes(b) => seq![CONTENT_BYTES] + be32(b.len()) + b,
        ContentV::Children(c) => seq![CONTENT_LIST] + be16(c.len()) + enc_list(c, c.len()),
    }
}

/// The encoding of a tree: tag, attribute count, attributes, content.
pub open spec fn enc_node(v: NodeV) -> Seq<u8>
    decreases v,
{
    enc_str(v.tag) + be16(v.attrs.len()) + enc_attrs(v.attrs, v.attrs.len()) + enc_content(v.content)
}

/// The first `k` trees of `c`, one after another.
pub open spec fn enc_list(c: Seq<NodeV>, k: nat) -> Seq<u8>
    decreases c, k,
{
    if k == 0 || k > c.len() {
        Seq::empty()
    } else {
        enc_list(c, (k - 1) as nat) + enc_node(c[k - 1])
    }
}

pub open spec fn str_ok(s: Seq<u8>) -> bool {
    s.len() < 0x1_0000_0000
}

pub open spec fn value_ok(v: ValueV) -> bool {
    match v {
        ValueV::Text(s) => str_ok(s),
        ValueV::Jid(j) => str_ok(j.user) && str_ok(j.server),
    }
}

/// Whether a tree can be encoded: every length fits its prefix and it nests
/// at most `d` levels below its root.
pub open spec fn node_ok(v: NodeV, d: nat) -> bool
    decreases d,
{
    &&& str_ok(v.tag)
    &&& v.attrs.len() < 0x1_0000
    &&& forall|i: int| 0 <= i < v.attrs.len() ==> str_ok((#[trigger] v.attrs[i]).key) && value_ok(v.attrs[i].value)
    &&& match v.content {
        ContentV::Empty => true,
        ContentV::Bytes(b) => b.len() < 0x1_0000_0000,
        ContentV::Children(c) => d > 0 && c.len() < 0x1_0000
            && forall|i: int| 0 <= i < c.len() ==> node_ok(#[trigger] c[i], (d - 1) as nat),
    }
}

/// Reads a string at `pos`: the string and the position after it.
pub open spec fn dec_str(b: Seq<u8>, pos: int) -> Option<(Seq<u8>, int)> {
    if pos < 0 || pos >= b.len() {
        None
    } else {
        let m = b[pos];
        if 1 <= m <= TOKEN_COUNT {
            Some((token(m), pos + 1))
        } else if m == STR8 {
            if pos + 2 > b.len() || pos + 2 + b[pos + 1] > b.len() {
                None
            } else {
                Some((b.subrange(pos + 2, pos + 2 + b[pos + 1]), pos + 2 + b[pos + 1]))
            }
        } else if m == STR16 {
            if pos + 3 > b.len() || pos + 3 + read16(b, pos + 1) > b.len() {
                None
            } else {
                Some((b.subrange(pos + 3, pos + 3 + read16(b, pos + 1)), pos + 3 + read16(b, pos + 1)))
            }
        } else if m == STR32 {
            if pos + 5 > b.len() || pos + 5 + read32(b, pos + 1) > b.len() {
                None
            } else {
                Some((b.subrange(pos + 5, pos + 5 + read32(b, pos + 1)), pos + 5 + read32(b, pos + 1)))
            }
        } else {
            None
        }
    }
}

/// Reads an attribute value at `pos`.
pub open spec fn dec_value(b: Seq<u8>, pos: int) -> Option<(ValueV, int)> {
    if 0 <= pos < b.len() && b[pos] == JID_MARK {
        match dec_str(b, pos + 1) {
            Some((u, p1)) => match dec_str(b, p1) {
                Some((s, p2)) => if p2 + 3 <= b.len() {
                    Some((ValueV::Jid(JidV { user: u, server: s, agent: b[p2], device: read16(b, p2 + 1) as u16 }), p2 + 3))
                } else {
                    None
                },
                None => None,
            },
            None => None,
        }
    } else {
        match dec_str(b, pos) {
            Some((s, p)) => Some((ValueV::Text(s), p)),
            None => None,
        }
    }
}

/// Reads an attribute at `pos`.
pub open spec fn dec_attr(b: Seq<u8>, pos: int) -> Option<(AttrV, int)> {
    match dec_str(b, pos) {
        Some((k, p)) => match dec_value(b, p) {
            Some((v, q)) => Some((AttrV { key: k, value: v }, q)),
            None => None,
        },
        None => None,
    }
}

/// Reads `k` attributes from `pos` on.
pub open spec fn dec_attrs(b: Seq<u8>, pos: int, k: nat) -> Option<(Seq<AttrV>, int)>
    decreases k,
{
    if k == 0 {
        Some((Seq::empty(), pos))
    } else {
        match dec_attrs(b, pos, (k - 1) as nat) {
            Some((a, p)) => match dec_attr(b, p) {
                Some((x, q)) => Some((a.push(x), q)),
                None => None,
            },
            None => None,
        }
    }
}

/// Reads a tree at `pos` that nests at most `d` levels.
pub open spec fn dec_node(b: Seq<u8>, pos: int, d: nat) -> Option<(NodeV, int)>
    decreases d, 0nat,
{
    match dec_str(b, pos) {
        None => None,
        Some((tag, p1)) => if p1 + 2 > b.len() {
            None
        } else {
            match dec_attrs(b, p1 + 2, read16(b, p1)) {
                None => None,
                Some((attrs, p2)) => if p2 >= b.len() {
                    None
                } else if b[p2] == CONTENT_EMPTY {
                    Some((NodeV { tag, attrs, content: ContentV::Empty }, p2 + 1))
                } else if b[p2] == CONTENT_BYTES {
                    if p2 + 5 > b.len() || p2 + 5 + read32(b, p2 + 1) > b.len() {
                        None
                    } else {
                        Some((NodeV { tag, attrs, content: ContentV::Bytes(b.subrange(p2 + 5, p2 + 5 + read32(b, p2 + 1))) },
                            p2 + 5 + read32(b, p2 + 1)))
                    }
                } else if b[p2] == CONTENT_LIST {
                    if d == 0 || p2 + 3 > b.len() {
                        None
                    } else {
                        match dec_list(b, p2 + 3, read16(b, p2 + 1), (d - 1) as nat) {
                            Some((c, p3)) => Some((NodeV { tag, attrs, content: ContentV::Children(c) }, p3)),
                            None => None,
                        }
                    }
                } else {
                    None
                },
            }
        },
    }
}

/// Reads `k` trees from `pos` on, each nesting at most `d` levels.
pub open spec fn dec_list(b: Seq<u8>, pos: int, k: nat, d: nat) -> Option<(Seq<NodeV>, int)>
    decreases d, k,
{
    if k == 0 {
        Some((Seq::empty(), pos))
    } else {
        match dec_list(b, pos, (k - 1) as nat, d) {
            Some((c, p)) => match dec_node(b, p, d) {
                Some((n, q)) => Some((c.push(n), q)),
                None => None,
            },
            None => None,
        }
    }
}

/// The tree that a whole buffer holds, if it holds exactly one.
pub open spec fn decoded(b: Seq<u8>) -> Option<NodeV> {
    match dec_node(b, 0, MAX_DEPTH as nat) {
        Some((n, end)) => if end == b.len() {
            Some(n)
        } else {
            None
        },
        None => None,
    }
}

/// Whether `x` stands in `b` from `pos` on.
pub open spec fn embedded(b: Seq<u8>, pos: int, x: Seq<u8>) -> bool {
    0 <= pos && pos + x.len() <= b.len() && b.subrange(pos, pos + x.len()) == x
}

proof fn lemma_split(b: Seq<u8>, pos: int, x: Seq<u8>, y: Seq<u8>)
    requires
        embedded(b, pos, x + y),
    ensures
        embedded(b, pos, x),
        embedded(b, pos + x.len(), y),
{
    let whole = b.subrange(pos, pos + (x + y).len());
    assert(whole == x + y);
    assert(b.subrange(pos, pos + x.len()) =~= whole.subrange(0, x.len() as int));
    assert((x + y).subrange(0, x.len() as int) =~= x);
    assert(b.subrange(pos + x.len(), pos + x.len() + y.len()) =~= whole.subrange(x.len() as int, (x + y).len() as int));
    assert((x + y).subrange(x.len() as int, (x + y).len() as int) =~= y);
}

proof fn lemma_at(b: Seq<u8>, pos: int, x: Seq<u8>, i: int)
    requires
        embedded(b, pos, x),
        0 <= i < x.len(),
    ensures
        b[pos + i] == x[i],
{
    assert(b.subrange(pos, pos + x.len())[i] == b[pos + i]);
}

proof fn lemma_be16(n: nat)
    requires
        n < 0x1_0000,
    ensures
        read16(be16(n), 0) == n,
{
    let hi = (n / 0x100) % 0x100;
    let lo = n % 0x100;
    assert(hi * 0x100 + lo == n) by (nonlinear_arith)
        requires
            n < 0x1_0000,
            hi == (n / 0x100) % 0x100,
            lo == n % 0x100,
    ;
}

proof fn lemma_be32(n: nat)
    requires
        n < 0x1_0000_0000,
    ensures
        read32(be32(n), 0) == n,
{
    let a = (n / 0x100_0000) % 0x100;
    let b = (n / 0x1_0000) % 0x100;
    let c = (n / 0x100) % 0x100;
    let d = n % 0x100;
    assert(a * 0x100_0000 + b * 0x1_0000 + c * 0x100 + d == n) by (nonlinear_arith)
        requires
            n < 0x1_0000_0000,
            a == (n / 0x100_0000) % 0x100,
            b == (n / 0x1_0000) % 0x100,
            c == (n / 0x100) % 0x100,
            d == n % 0x100,
    ;
}

proof fn lemma_read16(b: Seq<u8>, pos: int, n: nat)
    requires
        n < 0x1_0000,
        embedded(b, pos, be16(n)),
    ensures
        read16(b, pos) == n,
{
    lemma_at(b, pos, be16(n), 0);
    lemma_at(b, pos, be16(n), 1);
    lemma_be16(n);
}

proof fn lemma_read32(b: Seq<u8>, pos: int, n: nat)
    requires
        n < 0x1_0000_0000,
        embedded(b, pos, be32(n)),
    ensures
        read32(b, pos) == n,
{
    lemma_at(b, pos, be32(n), 0);
    lemma_at(b, pos, be32(n), 1);
    lemma_at(b, pos, be32(n), 2);
    lemma_at(b, pos, be32(n), 3);
    lemma_be32(n);
}

proof fn lemma_token(s: Seq<u8>)
    ensures
        token_index(s) != 0 ==> 1 <= token_index(s) <= TOKEN_COUNT && token(token_index(s)) == s,
{
}

/// A string reads back from its encoding.
pub proof fn lemma_str_round_trip(b: Seq<u8>, pos: int, s: Seq<u8>)
    requires
        str_ok(s),
        embedded(b, pos, enc_str(s)),
    ensures
        dec_str(b, pos) == Some((s, pos + enc_str(s).len())),
{
    lemma_token(s);
    let e = enc_str(s);
    lemma_at(b, pos, e, 0);
    let t = token_index(s);
    if t != 0 {
    } else if s.len() < 0x100 {
        lemma_split(b, pos, seq![STR8, s.len() as u8], s);
        lemma_at(b, pos, seq![STR8, s.len() as u8], 1);
    } else if s.len() < 0x1_0000 {
        lemma_split(b, pos, seq![STR16] + be16(s.len()), s);
        lemma_split(b, pos, seq![STR16], be16(s.len()));
        lemma_read16(b, pos + 1, s.len());
    } else {
        lemma_split(b, pos, seq![STR32] + be32(s.len()), s);
        lemma_split(b, pos, seq![STR32], be32(s.len()));
        lemma_read32(b, pos + 1, s.len());
    }
}

proof fn lemma_value_round_trip(b: Seq<u8>, pos: int, v: ValueV)
    requires
        value_ok(v),
        embedded(b, pos, enc_value(v)),
    ensures
        dec_value(b, pos) == Some((v, pos + enc_value(v).len())),
{
    match v {
        ValueV::Text(s) => {
            lemma_token(s);
            lemma_at(b, pos, enc_str(s), 0);
            lemma_str_round_trip(b, pos, s);
        },
        ValueV::Jid(j) => {
            let x1 = seq![JID_MARK];
            let x2 = enc_str(j.user);
            let x3 = enc_str(j.server);
            let x4 = seq![j.agent];
            let x5 = be16(j.device as nat);
            lemma_split(b, pos, x1 + x2 + x3 + x4, x5);
            lemma_split(b, pos, x1 + x2 + x3, x4);
            lemma_split(b, pos, x1 + x2, x3);
            lemma_split(b, pos, x1, x2);
            lemma_at(b, pos, x1, 0);
            lemma_str_round_trip(b, pos + 1, j.user);
            lemma_str_round_trip(b, pos + 1 + x2.len(), j.server);
            lemma_at(b, pos + 1 + x2.len() + x3.len(), x4, 0);
            lemma_read16(b, pos + 2 + x2.len() + x3.len(), j.device as nat);
        },
    }
}

proof fn lemma_attrs_round_trip(b: Seq<u8>, pos: int, a: Seq<AttrV>, k: nat)
    requires
        k <= a.len(),
        forall|i: int| 0 <= i < a.len() ==> str_ok((#[trigger] a[i]).key) && value_ok(a[i].value),
        embedded(b, pos, enc_attrs(a, k)),
    ensures
        dec_attrs(b, pos, k) == Some((a.subrange(0, k as int), pos + enc_attrs(a, k).len())),
    decreases k,
{
    if k == 0 {
        assert(a.subrange(0, 0) =~= Seq::<AttrV>::empty());
    } else {
        let x = enc_attrs(a, (k - 1) as nat);
        let y = enc_attr(a[k - 1]);
        lemma_split(b, pos, x, y);
        lemma_attrs_round_trip(b, pos, a, (k - 1) as nat);
        let p = pos + x.len();
        lemma_split(b, p, enc_str(a[k - 1].key), enc_value(a[k - 1].value));
        lemma_str_round_trip(b, p, a[k - 1].key);
        lemma_value_round_trip(b, p + enc_str(a[k - 1].key).len(), a[k - 1].value);
        assert(a.subrange(0, k - 1).push(a[k - 1]) =~= a.subrange(0, k as int));
    }
}

/// A tree that nests at most `d` levels reads back from its encoding.
pub proof fn lemma_node_round_trip(b: Seq<u8>, pos: int, v: NodeV, d: nat)
    requires
        node_ok(v, d),
        embedded(b, pos, enc_node(v)),
    ensures
        dec_node(b, pos, d) == Some((v, pos + enc_node(v).len())),
    decreases d, 0nat,
{
    let x1 = enc_str(v.tag);
    let x2 = be16(v.attrs.len());
    let x3 = enc_attrs(v.attrs, v.attrs.len());
    let x4 = enc_content(v.content);
    lemma_split(b, pos, x1 + x2 + x3, x4);
    lemma_split(b, pos, x1 + x2, x3);
    lemma_split(b, pos, x1, x2);
    lemma_str_round_trip(b, pos, v.tag);
    let p1 = pos + x1.len();
    lemma_read16(b, p1, v.attrs.len());
    lemma_attrs_round_trip(b, p1 + 2, v.attrs, v.attrs.len());
    assert(v.attrs.subrange(0, v.attrs.len() as int) =~= v.attrs);
    let p2 = p1 + 2 + x3.len();
    lemma_at(b, p2, x4, 0);
    match v.content {
        ContentV::Empty => {},
        ContentV::Bytes(bytes) => {
            lemma_split(b, p2, seq![CONTENT_BYTES] + be32(bytes.len()), bytes);
            lemma_split(b, p2, seq![CONTENT_BYTES], be32(bytes.len()));
            lemma_read32(b, p2 + 1, bytes.len());
        },
        ContentV::Children(c) => {
            lemma_split(b, p2, seq![CONTENT_LIST] + be16(c.len()), enc_list(c, c.len()));
            lemma_split(b, p2, seq![CONTENT_LIST], be16(c.len()));
            lemma_read16(b, p2 + 1, c.len());
            lemma_list_round_trip(b, p2 + 3, c, c.len(), (d - 1) as nat);
            assert(c.subrange(0, c.len() as int) =~= c);
        },
    }
}

/// The first `k` trees of `c` read back from their encoding.
pub proof fn lemma_list_round_trip(b: Seq<u8>, pos: int, c: Seq<NodeV>, k: nat, d: nat)
    requires
        k <= c.len(),
        forall|i: int| 0 <= i < c.len() ==> node_ok(#[trigger] c[i], d),
        embedded(b, pos, enc_list(c, k)),
    ensures
        dec_list(b, pos, k, d) == Some((c.subrange(0, k as int), pos + enc_list(c, k).len())),
    decreases d, k,
{
    if k == 0 {
        assert(c.subrange(0, 0) =~= Seq::<NodeV>::empty());
    } else {
        let x = enc_list(c, (k - 1) as nat);
        let y = enc_node(c[k - 1]);
        lemma_split(b, pos, x, y);
        lemma_list_round_trip(b, pos, c, (k - 1) as nat, d);
        lemma_node_round_trip(b, pos + x.len(), c[k - 1], d);
        assert(c.subrange(0, k - 1).push(c[k - 1]) =~= c.subrange(0, k as int));
    }
}

/// Decoding the encoding of a representable tree gives the tree back.
pub proof fn lemma_round_trip(v: NodeV)
    requires
        node_ok(v, MAX_DEPTH as nat),
    ensures
        decoded(enc_node(v)) == Some(v),
{
    let e = enc_node(v);
    assert(e.subrange(0, e.len() as int) =~= e);
    lemma_node_round_trip(e, 0, v, MAX_DEPTH as nat);
}

proof fn lemma_children_view(c: Seq<Node>, k: nat)
    requires
        k <= c.len(),
    ensures
        children_view(c, k).len() == k,
        forall|i: int| 0 <= i < k ==> #[trigger] children_view(c, k)[i] == node_view(c[i]),
    decreases k,
{
    if k > 0 {
        lemma_children_view(c, (k - 1) as nat);
    }
}

proof fn lemma_children_view_push(c: Seq<Node>, x: Node, k: nat)
    requires
        k <= c.len(),
    ensures
        children_view(c.push(x), k) == children_view(c, k),
    decreases k,
{
    if k > 0 {
        lemma_children_view_push(c, x, (k - 1) as nat);
        assert(c.push(x)[k - 1] == c[k - 1]);
    }
}

fn push_all(out: &mut Vec<u8>, s: &[u8])
    ensures
        final(out)@ == old(out)@ + s@,
{
    let mut i: usize = 0;
    while i < s.len()
        invariant
            0 <= i <= s@.len(),
            out@ == old(out)@ + s@.subrange(0, i as int),
        decreases s@.len() - i,
    {
        out.push(s[i]);
        i = i + 1;
        assert(out@ =~= old(out)@ + s@.subrange(0, i as int));
    }
    assert(s@.subrange(0, s@.len() as int) =~= s@);
}

fn push_be16(out: &mut Vec<u8>, n: u64)
    requires
        n < 0x1_0000,
    ensures
        final(out)@ == old(out)@ + be16(n as nat),
{
    out.push(((n / 0x100) % 0x100) as u8);
    out.push((n % 0x100) as u8);
    assert(final(out)@ =~= old(out)@ + be16(n as nat));
}

fn push_be32(out: &mut Vec<u8>, n: u64)
    requires
        n < 0x1_0000_0000,
    ensures
        final(out)@ == old(out)@ + be32(n as nat),
{
    out.push(((n / 0x100_0000) % 0x100) as u8);
    out.push(((n / 0x1_0000) % 0x100) as u8);
    out.push(((n / 0x100) % 0x100) as u8);
    out.push((n % 0x100) as u8);
    assert(final(out)@ =~= old(out)@ + be32(n as nat));
}

/// The dictionary index of `s`, or `0` when it is no token.
pub fn token_lookup(s: &[u8]) -> (r: u8)
    ensures
        r == token_index(s@),
{
    let mut i: u8 = 1;
    while i <= TOKEN_COUNT
        invariant
            1 <= i <= TOKEN_COUNT + 1,
            forall|j: u8| 1 <= j < i ==> token(j) != s@,
        decreases TOKEN_COUNT + 1 - i,
    {
        let t = token_bytes(i);
        if bytes_equal(t.as_slice(), s) {
            return i;
        }
        i = i + 1;
    }
    0
}

fn write_str(out: &mut Vec<u8>, s: &[u8]) -> (ok: bool)
    ensures
        ok == str_ok(s@),
        ok ==> final(out)@ == old(out)@ + enc_str(s@),
{
    if s.len() as u64 >= 0x1_0000_0000u64 {
        return false;
    }
    let t = token_lookup(s);
    if t != 0 {
        out.push(t);
        assert(final(out)@ =~= old(out)@ + enc_str(s@));
    } else if s.len() < 0x100 {
        out.push(STR8);
        out.push(s.len() as u8);
        push_all(out, s);
        assert(final(out)@ =~= old(out)@ + enc_str(s@));
    } else if s.len() < 0x1_0000 {
        out.push(STR16);
        push_be16(out, s.len() as u64);
        push_all(out, s);
        assert(final(out)@ =~= old(out)@ + enc_str(s@));
    } else {
        out.push(STR32);
        push_be32(out, s.len() as u64);
        push_all(out, s);
        assert(final(out)@ =~= old(out)@ + enc_str(s@));
    }
    true
}

fn write_value(out: &mut Vec<u8>, v: &AttrValue) -> (ok: bool)
    ensures
        ok == value_ok(v@),
        ok ==> final(out)@ == old(out)@ + enc_value(v@),
{
    match v {
        AttrValue::Text(s) => write_str(out, s.as_slice()),
        AttrValue::Jid(j) => {
            out.push(JID_MARK);
            if !write_str(out, j.user.as_slice()) {
                return false;
            }
            if !write_str(out, j.server.as_slice()) {
                return false;
            }
            out.push(j.agent);
            push_be16(out, j.device as u64);
            assert(final(out)@ =~= old(out)@ + enc_value(v@));
            true
        },
    }
}

fn write_attrs(out: &mut Vec<u8>, attrs: &Vec<Attr>) -> (ok: bool)
    ensures
        ok == (attrs@.len() < 0x1_0000 && forall|i: int| 0 <= i < attrs@.len() ==>
            str_ok((#[trigger] attrs@[i])@.key) && value_ok(attrs@[i]@.value)),
        ok ==> final(out)@ == old(out)@ + be16(attrs@.len()) + enc_attrs(attrs@.map_values(|a: Attr| a@), attrs@.len()),
{
    let ghost av = attrs@.map_values(|a: Attr| a@);
    if attrs.len() >= 0x1_0000 {
        return false;
    }
    push_be16(out, attrs.len() as u64);
    let ghost mid = out@;
    let mut k: usize = 0;
    while k < attrs.len()
        invariant
            av == attrs@.map_values(|a: Attr| a@),
            0 <= k <= attrs@.len(),
            out@ == mid + enc_attrs(av, k as nat),
            mid == old(out)@ + be16(attrs@.len()),
            forall|i: int| 0 <= i < k ==> str_ok((#[trigger] attrs@[i])@.key) && value_ok(attrs@[i]@.value),
        decreases attrs@.len() - k,
    {
        let a = &attrs[k];
        assert(av[k as int] == a@);
        if !write_str(out, a.key.as_slice()) {
            return false;
        }
        if !write_value(out, &a.value) {
            return false;
        }
        assert(out@ =~= mid + enc_attrs(av, (k + 1) as nat));
        k = k + 1;
    }
    assert(out@ =~= old(out)@ + be16(attrs@.len()) + enc_attrs(av, attrs@.len()));
    true
}

fn write_children(out: &mut Vec<u8>, c: &Vec<Node>, d: u32) -> (ok: bool)
    requires
        d > 0,
    ensures
        ok == forall|i: int| 0 <= i < c@.len() ==> node_ok(#[trigger] children_view(c@, c@.len())[i], (d - 1) as nat),
        ok ==> final(out)@ == old(out)@ + enc_list(children_view(c@, c@.len()), c@.len()),
    decreases d, 0nat,
{
    let ghost cv = children_view(c@, c@.len());
    proof {
        lemma_children_view(c@, c@.len());
    }
    let mut k: usize = 0;
    while k < c.len()
        invariant
            cv == children_view(c@, c@.len()),
            cv.len() == c@.len(),
            forall|i: int| 0 <= i < c@.len() ==> #[trigger] cv[i] == node_view(c@[i]),
            0 <= k <= c@.len(),
            0 < d,
            out@ == old(out)@ + enc_list(cv, k as nat),
            forall|i: int| 0 <= i < k ==> node_ok(#[trigger] cv[i], (d - 1) as nat),
        decreases c@.len() - k,
    {
        assert(cv[k as int] == c@[k as int]@);
        if !write_node(out, &c[k], d - 1) {
            return false;
        }
        assert(out@ =~= old(out)@ + enc_list(cv, (k + 1) as nat));
        k = k + 1;
    }
    true
}

fn write_node(out: &mut Vec<u8>, n: &Node, d: u32) -> (ok: bool)
    ensures
        ok == node_ok(n@, d as nat),
        ok ==> final(out)@ == old(out)@ + enc_node(n@),
    decreases d, 1nat,
{
    let ghost v = n@;
    if !write_str(out, n.tag.as_slice()) {
        return false;
    }
    if !write_attrs(out, &n.attrs) {
        assert(!node_ok(v, d as nat)) by {
            if node_ok(v, d as nat) {
                assert forall|i: int| 0 <= i < n.attrs@.len() implies
                    str_ok((#[trigger] n.attrs@[i])@.key) && value_ok(n.attrs@[i]@.value) by {
                    assert(v.attrs[i] == n.attrs@[i]@);
                }
            }
        }
        return false;
    }
    match &n.content {
        Content::Empty => {
            out.push(CONTENT_EMPTY);
        },
        Content::Bytes(b) => {
            assert(v.content == ContentV::Bytes(b@));
            if b.len() as u64 >= 0x1_0000_0000u64 {
                return false;
            }
            out.push(CONTENT_BYTES);
            push_be32(out, b.len() as u64);
            push_all(out, b.as_slice());
        },
        Content::Children(c) => {
            assert(v.content == ContentV::Children(children_view(c@, c@.len())));
            proof {
                lemma_children_view(c@, c@.len());
            }
            if d == 0 || c.len() >= 0x1_0000 {
                return false;
            }
            out.push(CONTENT_LIST);
            push_be16(out, c.len() as u64);
            if !write_children(out, c, d) {
                return false;
            }
        },
    }
    assert(out@ =~= old(out)@ + enc_node(v));
    true
}

/// The encoding of a tree; fails with `MalformedFrame` on a tree that is
/// not representable.
pub fn encode(n: &Node) -> (r: Result<Vec<u8>, CoreError>)
    ensures
        r is Ok == node_ok(n@, MAX_DEPTH as nat),
        r matches Ok(b) ==> b@ == enc_node(n@),
        r matches Err(e) ==> e == CoreError::MalformedFrame,
{
    let mut out: Vec<u8> = Vec::new();
    if write_node(&mut out, n, MAX_DEPTH) {
        assert(out@ =~= enc_node(n@));
        Ok(out)
    } else {
        Err(CoreError::MalformedFrame)
    }
}

proof fn lemma_attrs_none(b: Seq<u8>, pos: int, j: nat, k: nat)
    requires
        j <= k,
        dec_attrs(b, pos, j) is None,
    ensures
        dec_attrs(b, pos, k) is None,
    decreases k,
{
    if j < k {
        lemma_attrs_none(b, pos, j, (k - 1) as nat);
    }
}

proof fn lemma_list_none(b: Seq<u8>, pos: int, j: nat, k: nat, d: nat)
    requires
        j <= k,
        dec_list(b, pos, j, d) is None,
    ensures
        dec_list(b, pos, k, d) is None,
    decreases k,
{
    if j < k {
        lemma_list_none(b, pos, j, (k - 1) as nat, d);
    }
}

fn copy_range(b: &[u8], start: usize, end: usize) -> (r: Vec<u8>)
    requires
        start <= end <= b@.len(),
    ensures
        r@ == b@.subrange(start as int, end as int),
{
    let mut v: Vec<u8> = Vec::new();
    let mut i: usize = start;
    while i < end
        invariant
            start <= i <= end,
            end <= b@.len(),
            v@ == b@.subrange(start as int, i as int),
        decreases end - i,
    {
        v.push(b[i]);
        i = i + 1;
        assert(v@ =~= b@.subrange(start as int, i as int));
    }
    v
}

fn read_str(b: &[u8], pos: usize) -> (r: Option<(Vec<u8>, usize)>)
    ensures
        r is Some == dec_str(b@, pos as int) is Some,
        r matches Some((s, p)) ==> dec_str(b@, pos as int) == Some((s@, p as int)),
{
    if pos >= b.len() {
        return None;
    }
    let m = b[pos];
    if 1 <= m && m <= TOKEN_COUNT {
        return Some((token_bytes(m), pos + 1));
    }
    let rem = b.len() - pos;
    if m == STR8 {
        if rem < 2 {
            return None;
        }
        let n = b[pos + 1] as usize;
        if rem - 2 < n {
            return None;
        }
        let s = copy_range(b, pos + 2, pos + 2 + n);
        return Some((s, pos + 2 + n));
    }
    if m == STR16 {
        if rem < 3 {
            return None;
        }
        let n = (b[pos + 1] as usize) * 0x100 + (b[pos + 2] as usize);
        if rem - 3 < n {
            return None;
        }
        let s = copy_range(b, pos + 3, pos + 3 + n);
        return Some((s, pos + 3 + n));
    }
    if m == STR32 {
        if rem < 5 {
            return None;
        }
        let n: u64 = (b[pos + 1] as u64) * 0x100_0000 + (b[pos + 2] as u64) * 0x1_0000 + (b[pos + 3] as u64) * 0x100
            + (b[pos + 4] as u64);
        if ((rem - 5) as u64) < n {
            return None;
        }
        let n = n as usize;
        let s = copy_range(b, pos + 5, pos + 5 + n);
        return Some((s, pos + 5 + n));
    }
    None
}

fn read_value(b: &[u8], pos: usize) -> (r: Option<(AttrValue, usize)>)
    ensures
        r is Some == dec_value(b@, pos as int) is Some,
        r matches Some((v, p)) ==> dec_value(b@, pos as int) == Some((v@, p as int)),
{
    if pos < b.len() && b[pos] == JID_MARK {
        let (user, p1) = match read_str(b, pos + 1) {
            Some(x) => x,
            None => return None,
        };
        let (server, p2) = match read_str(b, p1) {
            Some(x) => x,
            None => return None,
        };
        if p2 > b.len() || b.len() - p2 < 3 {
            return None;
        }
        let agent = b[p2];
        let device = ((b[p2 + 1] as u16) * 0x100 + (b[p2 + 2] as u16)) as u16;
        Some((AttrValue::Jid(Jid { user, server, agent, device }), p2 + 3))
    } else {
        match read_str(b, pos) {
            Some((s, p)) => Some((AttrValue::Text(s), p)),
            None => None,
        }
    }
}

fn read_attrs(b: &[u8], pos: usize, k: usize) -> (r: Option<(Vec<Attr>, usize)>)
    ensures
        r is Some == dec_attrs(b@, pos as int, k as nat) is Some,
        r matches Some((a, p)) ==> dec_attrs(b@, pos as int, k as nat) == Some((a@.map_values(|x: Attr| x@), p as int)),
{
    let mut acc: Vec<Attr> = Vec::new();
    let mut p = pos;
    let mut i: usize = 0;
    while i < k
        invariant
            0 <= i <= k,
            acc@.len() == i,
            dec_attrs(b@, pos as int, i as nat) == Some((acc@.map_values(|x: Attr| x@), p as int)),
        decreases k - i,
    {
        let (key, q) = match read_str(b, p) {
            Some(x) => x,
            None => {
                proof {
                    lemma_attrs_none(b@, pos as int, (i + 1) as nat, k as nat);
                }
                return None;
            },
        };
        let (value, q2) = match read_value(b, q) {
            Some(x) => x,
            None => {
                proof {
                    lemma_attrs_none(b@, pos as int, (i + 1) as nat, k as nat);
                }
                return None;
            },
        };
        let ghost before = acc@;
        acc.push(Attr { key, value });
        assert(acc@.map_values(|x: Attr| x@) =~= before.map_values(|x: Attr| x@).push(acc@[i as int]@));
        p = q2;
        i = i + 1;
    }
    Some((acc, p))
}

fn read_children(b: &[u8], pos: usize, k: usize, d: u32) -> (r: Option<(Vec<Node>, usize)>)
    ensures
        r is Some == dec_list(b@, pos as int, k as nat, d as nat) is Some,
        r matches Some((c, p)) ==> c@.len() == k
            && dec_list(b@, pos as int, k as nat, d as nat) == Some((children_view(c@, k as nat), p as int)),
    decreases d + 1, 0nat,
{
    let mut acc: Vec<Node> = Vec::new();
    let mut p = pos;
    let mut i: usize = 0;
    while i < k
        invariant
            0 <= i <= k,
            acc@.len() == i,
            dec_list(b@, pos as int, i as nat, d as nat) == Some((children_view(acc@, i as nat), p as int)),
        decreases k - i,
    {
        let (n, q) = match read_node(b, p, d) {
            Some(x) => x,
            None => {
                proof {
                    lemma_list_none(b@, pos as int, (i + 1) as nat, k as nat, d as nat);
                }
                return None;
            },
        };
        let ghost before = acc@;
        acc.push(n);
        proof {
            lemma_children_view_push(before, n, i as nat);
            assert(acc@ == before.push(n));
            assert(acc@[i as int] == n);
        }
        p = q;
        i = i + 1;
    }
    Some((acc, p))
}

fn read_node(b: &[u8], pos: usize, d: u32) -> (r: Option<(Node, usize)>)
    ensures
        r is Some == dec_node(b@, pos as int, d as nat) is Some,
        r matches Some((n, p)) ==> dec_node(b@, pos as int, d as nat) == Some((n@, p as int)),
    decreases d, 1nat,
{
    let (tag, p1) = match read_str(b, pos) {
        Some(x) => x,
        None => return None,
    };
    if p1 > b.len() || b.len() - p1 < 2 {
        return None;
    }
    let na = (b[p1] as usize) * 0x100 + (b[p1 + 1] as usize);
    let (attrs, p2) = match read_attrs(b, p1 + 2, na) {
        Some(x) => x,
        None => return None,
    };
    if p2 >= b.len() {
        return None;
    }
    let m = b[p2];
    if m == CONTENT_EMPTY {
        let n = Node { tag, attrs, content: Content::Empty };
        return Some((n, p2 + 1));
    }
    let rem = b.len() - p2;
    if m == CONTENT_BYTES {
        if rem < 5 {
            return None;
        }
        let len: u64 = (b[p2 + 1] as u64) * 0x100_0000 + (b[p2 + 2] as u64) * 0x1_0000 + (b[p2 + 3] as u64) * 0x100
            + (b[p2 + 4] as u64);
        if ((rem - 5) as u64) < len {
            return None;
        }
        let len = len as usize;
        let bytes = copy_range(b, p2 + 5, p2 + 5 + len);
        let n = Node { tag, attrs, content: Content::Bytes(bytes) };
        return Some((n, p2 + 5 + len));
    }
    if m == CONTENT_LIST {
        if d == 0 || rem < 3 {
            return None;
        }
        let nc = (b[p2 + 1] as usize) * 0x100 + (b[p2 + 2] as usize);
        let (c, p3) = match read_children(b, p2 + 3, nc, d - 1) {
            Some(x) => x,
            None => return None,
        };
        let n = Node { tag, attrs, content: Content::Children(c) };
        return Some((n, p3));
    }
    None
}

/// The tree a buffer holds; fails with `MalformedFrame` on truncation,
/// inconsistent lengths, unknown markers, trailing bytes or nesting deeper
/// than `MAX_DEPTH`.
pub fn decode(b: &[u8]) -> (r: Result<Node, CoreError>)
    ensures
        r is Ok == decoded(b@) is Some,
        r matches Ok(n) ==> decoded(b@) == Some(n@),
        r matches Err(e) ==> e == CoreError::MalformedFrame,
{
    match read_node(b, 0, MAX_DEPTH) {
        Some((n, p)) => if p == b.len() {
            Ok(n)
        } else {
            Err(CoreError::MalformedFrame)
        },
        None => Err(CoreError::MalformedFrame),
    }
}

} // verus!
