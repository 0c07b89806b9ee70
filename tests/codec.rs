use wa_core::codec::{decode, encode, token_lookup, Attr, AttrValue, Content, Jid, Node, MAX_DEPTH};
use wa_core::error::CoreError;

fn text(k: &str, v: &[u8]) -> Attr {
    Attr { key: k.as_bytes().to_vec(), value: AttrValue::Text(v.to_vec()) }
}

fn leaf(tag: &str, content: Content) -> Node {
    Node { tag: tag.as_bytes().to_vec(), attrs: Vec::new(), content }
}

fn same(a: &Node, b: &Node) -> bool {
    if a.tag != b.tag || a.attrs.len() != b.attrs.len() {
        return false;
    }
    for (x, y) in a.attrs.iter().zip(b.attrs.iter()) {
        if x.key != y.key {
            return false;
        }
        let ok = match (&x.value, &y.value) {
            (AttrValue::Text(p), AttrValue::Text(q)) => p == q,
            (AttrValue::Jid(p), AttrValue::Jid(q)) => {
                p.user == q.user && p.server == q.server && p.agent == q.agent && p.device == q.device
            }
            _ => false,
        };
        if !ok {
            return false;
        }
    }
    match (&a.content, &b.content) {
        (Content::Empty, Content::Empty) => true,
        (Content::Bytes(p), Content::Bytes(q)) => p == q,
        (Content::Children(p), Content::Children(q)) => {
            p.len() == q.len() && p.iter().zip(q.iter()).all(|(x, y)| same(x, y))
        }
        _ => false,
    }
}

fn sample() -> Node {
    let jid = Jid { user: b"15551234567".to_vec(), server: b"s.whatsapp.net".to_vec(), agent: 0, device: 3 };
    let long = vec![b'x'; 300];
    let huge = vec![b'y'; 70_000];
    Node {
        tag: b"iq".to_vec(),
        attrs: vec![
            text("id", b"1"),
            text("type", b"get"),
            Attr { key: b"to".to_vec(), value: AttrValue::Jid(jid) },
            text("custom-key", &long),
        ],
        content: Content::Children(vec![
            leaf("ping", Content::Empty),
            leaf("enc", Content::Bytes(vec![0, 1, 2, 255])),
            leaf("blob", Content::Bytes(huge)),
            Node { tag: b"list".to_vec(), attrs: vec![], content: Content::Children(vec![]) },
        ]),
    }
}

#[test]
fn tree_round_trips() {
    let n = sample();
    let bytes = encode(&n).unwrap();
    let back = decode(&bytes).unwrap();
    assert!(same(&n, &back));
}

#[test]
fn tokens_encode_as_one_byte() {
    assert_eq!(token_lookup(b"iq"), 1);
    assert_eq!(token_lookup(b"id"), 2);
    assert_eq!(token_lookup(b"nope"), 0);
    let n = leaf("iq", Content::Empty);
    assert_eq!(encode(&n).unwrap(), vec![1, 0, 0, 0]);
    let m = leaf("ab", Content::Bytes(vec![7]));
    assert_eq!(encode(&m).unwrap(), vec![0xFC, 2, b'a', b'b', 0, 0, 1, 0, 0, 0, 1, 7]);
}

#[test]
fn string_prefix_width_follows_length() {
    let n = leaf(&"a".repeat(300), Content::Empty);
    let bytes = encode(&n).unwrap();
    assert_eq!(&bytes[..3], &[0xFD, 0x01, 0x2C]);
    assert!(same(&decode(&bytes).unwrap(), &n));
}

#[test]
fn truncated_input_is_malformed() {
    let bytes = encode(&sample()).unwrap();
    for cut in [0usize, 1, 5, bytes.len() / 2, bytes.len() - 1] {
        assert_eq!(decode(&bytes[..cut]).err(), Some(CoreError::MalformedFrame));
    }
}

#[test]
fn bad_marker_length_and_trailing_bytes_are_malformed() {
    assert_eq!(decode(&[0xF0, 0, 0, 0]).err(), Some(CoreError::MalformedFrame));
    assert_eq!(decode(&[0xFC, 9, b'a']).err(), Some(CoreError::MalformedFrame));
    assert_eq!(decode(&[1, 0, 0, 7]).err(), Some(CoreError::MalformedFrame));
    assert_eq!(decode(&[1, 0, 0, 0, 0]).err(), Some(CoreError::MalformedFrame));
    assert!(decode(&[1, 0, 0, 0]).is_ok());
}

#[test]
fn nesting_beyond_bound_is_rejected() {
    let mut n = leaf("x", Content::Empty);
    for _ in 0..(MAX_DEPTH + 1) {
        n = leaf("x", Content::Children(vec![n]));
    }
    assert_eq!(encode(&n).err(), Some(CoreError::MalformedFrame));
    let mut bytes = Vec::new();
    for _ in 0..(MAX_DEPTH + 1) {
        bytes.extend_from_slice(&[0xFC, 1, b'x', 0, 0, 2, 0, 1]);
    }
    bytes.extend_from_slice(&[0xFC, 1, b'x', 0, 0, 0]);
    assert_eq!(decode(&bytes).err(), Some(CoreError::MalformedFrame));
    let mut ok = leaf("x", Content::Empty);
    for _ in 0..MAX_DEPTH {
        ok = leaf("x", Content::Children(vec![ok]));
    }
    let b = encode(&ok).unwrap();
    assert!(same(&decode(&b).unwrap(), &ok));
}
