use mechanix::wayland::fake::read_requests;
use mechanix::wayland::wire::Writer;
use mechanix::wayland::ObjectId;

#[test]
fn requests_are_read_whole_and_in_order() {
    let mut bytes = Vec::new();
    let mut w = Writer::begin(Vec::new(), ObjectId(3), 0);
    w.object(ObjectId(5));
    bytes.extend_from_slice(&w.finish());
    let mut w = Writer::begin(Vec::new(), ObjectId(4), 2);
    w.string("hi");
    let second = w.finish();
    bytes.extend_from_slice(&second);
    bytes.extend_from_slice(&second[..3]);
    let (reqs, consumed) = read_requests(&bytes).unwrap();
    assert_eq!(consumed, 12 + second.len());
    assert_eq!(reqs.len(), 2);
    assert_eq!((reqs[0].sender, reqs[0].opcode), (ObjectId(3), 0));
    assert_eq!(reqs[0].reader().object(), Some(ObjectId(5)));
    assert_eq!((reqs[1].sender, reqs[1].opcode), (ObjectId(4), 2));
    assert_eq!(reqs[1].reader().string().as_deref(), Some("hi"));
}

use mechanix::wayland::fake::Inbox;

#[test]
fn the_inbox_keeps_requests_in_order_across_reads_until_taken() {
    let mut w = Writer::begin(Vec::new(), ObjectId(3), 1);
    w.uint(9);
    let one = w.finish();
    let mut w = Writer::begin(Vec::new(), ObjectId(4), 0);
    w.uint(8);
    let two = w.finish();
    let mut inbox = Inbox::new();
    inbox.read(&one[..5]);
    assert!(inbox.expect(3, 1).is_none(), "half a request is not one");
    let mut rest = one[5..].to_vec();
    rest.extend_from_slice(&two);
    inbox.read(&rest);
    let r = inbox.expect(4, 0).unwrap();
    assert_eq!(r.reader().uint(), Some(8));
    assert!(inbox.expect(4, 0).is_none(), "removed");
    let all = inbox.take_requests();
    assert_eq!(all.len(), 1);
    assert_eq!((all[0].sender, all[0].opcode), (ObjectId(3), 1));
    assert!(inbox.take_requests().is_empty());
}
