use snake_console::input::InputReceiver;

#[test]
fn no_input_reads_as_zero() {
    let mut rec = InputReceiver::new();
    assert_eq!(rec.get_input(), 0);
    assert_eq!(rec.get_input(), 0);
}

#[test]
fn bytes_come_out_in_arrival_order() {
    let mut rec = InputReceiver::new();
    rec.receive(b'w');
    rec.receive(b'a');
    rec.receive(b's');
    assert_eq!(rec.get_input(), b'w');
    assert_eq!(rec.wait_for_input(), b'a');
    assert_eq!(rec.get_input(), b's');
    assert_eq!(rec.get_input(), 0);
}

#[test]
fn clear_buffer_returns_the_most_recent() {
    let mut rec = InputReceiver::new();
    assert_eq!(rec.clear_buffer(), None);
    rec.receive(1);
    rec.receive(2);
    rec.receive(3);
    assert_eq!(rec.clear_buffer(), Some(3));
    assert_eq!(rec.get_input(), 0);
    assert_eq!(rec.clear_buffer(), None);
    rec.receive(b'd');
    assert_eq!(rec.get_input(), b'd');
}
