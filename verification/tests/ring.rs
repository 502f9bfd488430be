use mechanix::ring::{IoEvent, Ops, RingModule, Stop, Token};

#[test]
fn tokens_are_issued_in_order_from_one() {
    let mut ops: Ops<&str> = Ops::new();
    assert_eq!(ops.submit("a"), Token::from_raw(1));
    assert_eq!(ops.submit("b"), Token::from_raw(2));
}

#[test]
fn finish_is_once_and_only_for_own_tokens() {
    let mut ops: Ops<Vec<u8>> = Ops::new();
    let t = ops.submit(b"hi".to_vec());
    assert!(ops.finish(t).is_none(), "not completed yet");
    ops.complete(IoEvent { token: t, result: 2 });
    let (buf, result) = ops.finish(t).unwrap();
    assert_eq!((buf, result), (b"hi".to_vec(), 2));
    assert!(ops.finish(t).is_none(), "finished already");
    assert!(ops.finish(Token::from_raw(99)).is_none(), "never issued");
}

#[test]
fn a_completion_of_another_token_changes_nothing() {
    let mut ops: Ops<u8> = Ops::new();
    let t = ops.submit(7);
    ops.complete(IoEvent {
        token: Token::from_raw(50),
        result: 1,
    });
    assert!(ops.finish(t).is_none());
    ops.complete(IoEvent { token: t, result: -11 });
    assert_eq!(ops.finish(t), Some((7, -11)));
}

#[test]
fn stop_ends_the_runner_after_the_turn() {
    let mut ops: Ops<u8> = Ops::new();
    assert!(!ops.is_stopped());
    ops.on_stop(&Stop);
    assert!(ops.is_stopped());
}

#[test]
fn the_ring_has_sixty_four_slots_by_default() {
    assert_eq!(RingModule::default().entries, 64);
    assert_eq!(RingModule::new().entries, 64);
}

#[test]
fn one_turn_delivers_every_completion_it_finds() {
    let mut ops: Ops<u8> = Ops::new();
    let a = ops.submit(1);
    let b = ops.submit(2);
    let events = ops.complete_all(&[(b.0, 5), (77, -4), (a.0, 3)]);
    assert_eq!(
        events,
        vec![
            IoEvent { token: b, result: 5 },
            IoEvent {
                token: Token::from_raw(77),
                result: -4
            },
            IoEvent { token: a, result: 3 },
        ]
    );
    assert_eq!(ops.finish(a), Some((1, 3)));
    assert_eq!(ops.finish(b), Some((2, 5)));
}
