use mechanix::wayland::wire::{header, split_messages, Header, Reader, Writer};
use mechanix::wayland::ObjectId;

fn encode(f: impl FnOnce(&mut Writer)) -> Vec<u8> {
    let mut w = Writer::begin(Vec::new(), ObjectId(7), 3);
    f(&mut w);
    w.finish()
}

#[test]
fn header_carries_sender_size_and_opcode() {
    let buf = encode(|w| w.signed(-1));
    let h = header(&buf).unwrap();
    assert_eq!(
        h,
        Header {
            sender: ObjectId(7),
            opcode: 3,
            size: 12
        }
    );
    assert_eq!(&buf[8..], &(-1i32).to_ne_bytes());
    assert!(header(&buf[..7]).is_none());
}

#[test]
fn strings_are_nul_terminated_and_padded() {
    let buf = encode(|w| w.string("abc"));
    assert_eq!(&buf[8..12], &4u32.to_ne_bytes(), "length includes the nul");
    assert_eq!(&buf[12..16], b"abc\0");
    assert_eq!(buf.len(), 16);
    let buf = encode(|w| w.string("abcd"));
    assert_eq!(buf.len(), 8 + 4 + 8, "abcd\\0 is padded to eight");
    let buf = encode(|w| w.string_opt(None));
    assert_eq!(&buf[8..], &0u32.to_ne_bytes());
}

#[test]
fn fixed_objects_arrays_and_fds() {
    let buf = encode(|w| {
        w.object_opt(None);
        w.object(ObjectId(9));
        w.array(&[1, 2, 3]);
    });
    assert_eq!(&buf[8..12], &0u32.to_ne_bytes());
    assert_eq!(&buf[12..16], &9u32.to_ne_bytes());
    assert_eq!(&buf[16..20], &3u32.to_ne_bytes());
    assert_eq!(&buf[20..24], &[1, 2, 3, 0]);
}

#[test]
fn reader_round_trips_every_kind() {
    let buf = encode(|w| {
        w.uint(5);
        w.signed(-2);
        w.string("hi");
        w.string_opt(None);
        w.object_opt(Some(ObjectId(4)));
        w.array(&[9]);
    });
    let mut r = Reader::new(&buf[8..]);
    assert_eq!(r.uint(), Some(5));
    assert_eq!(r.signed(), Some(-2));
    assert_eq!(r.string().as_deref(), Some("hi"));
    assert_eq!(r.string_opt(), Some(None));
    assert_eq!(r.object_opt(), Some(Some(ObjectId(4))));
    assert_eq!(r.array(), Some(vec![9]));
    assert_eq!(r.uint(), None, "past the end");
}

#[test]
fn the_size_word_counts_the_header_and_the_padded_body() {
    let buf = encode(|w| {
        w.uint(1);
        w.string("hello");
    });
    // 8 header + 4 uint + 4 length + "hello\0" padded to 8.
    assert_eq!(buf.len(), 24);
    assert_eq!(&buf[4..8], &((24u32 << 16) | 3).to_ne_bytes());
}

#[test]
fn a_string_that_is_not_utf8_does_not_read() {
    let mut body = Vec::new();
    body.extend_from_slice(&3u32.to_ne_bytes());
    body.extend_from_slice(&[0xff, 0xfe, 0, 0]);
    assert_eq!(Reader::new(&body).string(), None);
}

#[test]
fn a_string_is_its_length_less_the_last_byte() {
    let mut body = Vec::new();
    body.extend_from_slice(&2u32.to_ne_bytes());
    body.extend_from_slice(b"ab\0\0");
    assert_eq!(Reader::new(&body).string().as_deref(), Some("a"));
    let mut body = Vec::new();
    body.extend_from_slice(&0u32.to_ne_bytes());
    assert_eq!(Reader::new(&body).string(), None, "a zero length is no string");
    assert_eq!(Reader::new(&body).string_opt(), Some(None), "but is a null one");
}

#[test]
fn an_array_longer_than_the_body_does_not_read() {
    let mut body = Vec::new();
    body.extend_from_slice(&8u32.to_ne_bytes());
    body.extend_from_slice(&[1, 2, 3, 4]);
    assert_eq!(Reader::new(&body).array(), None);
}

#[test]
fn split_messages_finds_the_whole_ones_and_leaves_the_rest() {
    let a = encode(|w| w.uint(1));
    let b = encode(|w| w.string("xy"));
    let mut bytes = a.clone();
    bytes.extend_from_slice(&b);
    bytes.extend_from_slice(&b[..5]);
    let (frames, consumed) = split_messages(&bytes).unwrap();
    assert_eq!(frames.len(), 2);
    assert_eq!(frames[0].1, 0);
    assert_eq!(frames[1].1, a.len());
    assert_eq!(frames[1].0.size, b.len());
    assert_eq!(consumed, a.len() + b.len());
}

#[test]
fn a_header_shorter_than_itself_stops_the_split() {
    let mut bytes = Vec::new();
    bytes.extend_from_slice(&7u32.to_ne_bytes());
    bytes.extend_from_slice(&((4u32 << 16) | 1).to_ne_bytes());
    assert!(split_messages(&bytes).is_none());
}

#[test]
fn a_finished_message_is_whole_words_and_its_header_names_its_length() {
    for s in ["", "a", "ab", "abc", "abcd", "wl_compositor"] {
        let m = encode(|w| {
            w.uint(1);
            w.string(s);
            w.array(&[1, 2, 3]);
        });
        assert_eq!(m.len() % 4, 0, "{s:?}");
        let h = header(&m).unwrap();
        assert_eq!(h.size, m.len());
        assert_eq!((h.sender, h.opcode), (ObjectId(7), 3));
    }
}

#[test]
fn words_go_out_in_the_hosts_byte_order() {
    let m = encode(|w| w.uint(0x0102_0304));
    assert_eq!(&m[0..4], &7u32.to_ne_bytes());
    assert_eq!(&m[4..8], &((12u32 << 16) | 3).to_ne_bytes());
    assert_eq!(&m[8..12], &0x0102_0304u32.to_ne_bytes());
    let mut r = Reader::new(&m[8..]);
    assert_eq!(r.uint(), Some(0x0102_0304));
}
