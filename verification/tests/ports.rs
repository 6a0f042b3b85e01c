use databend_query::datablock::DataBlock;
use databend_query::port::PortFlags;
use databend_query::port::Ports;

fn block(bytes: &[u8]) -> DataBlock {
    DataBlock::create(bytes.to_vec())
}

#[test]
fn a_fresh_port_is_empty_and_open() {
    let mut ports = Ports::new();
    assert_eq!(ports.len(), 0);
    let (output, input) = ports.connect();
    assert_eq!(ports.len(), 1);
    assert_eq!(output.id(), 0);
    assert_eq!(input.id(), 0);
    assert!(!input.has_data(&ports));
    assert!(!input.is_finished(&ports));
    assert!(!output.is_finished(&ports));
    assert!(!output.can_push(&ports));
    assert_eq!(
        ports.flags(0),
        PortFlags { has_data: false, need_data: false, finished: false }
    );
}

#[test]
fn a_push_into_a_full_port_is_rejected() {
    let mut ports = Ports::new();
    let (output, input) = ports.connect();
    assert!(output.push_data(&mut ports, block(b"first")).is_ok());
    assert!(input.has_data(&ports));

    let refused = output.push_data(&mut ports, block(b"second")).unwrap_err();
    assert!(refused.is_contract_violation());
    assert_eq!(refused.message(), "push into a port that holds unconsumed data");

    assert_eq!(input.pull_data(&mut ports), Some(block(b"first")));
    assert!(!input.has_data(&ports));
    assert_eq!(input.pull_data(&mut ports), None);
}

#[test]
fn pull_on_an_empty_port_gives_nothing_and_changes_nothing() {
    let mut ports = Ports::new();
    let (_output, input) = ports.connect();
    input.set_need_data(&mut ports);
    let before = ports.flags(0);
    assert_eq!(input.pull_data(&mut ports), None);
    assert_eq!(ports.flags(0), before);
}

#[test]
fn blocks_leave_a_port_in_the_order_they_entered() {
    let mut ports = Ports::new();
    let (output, input) = ports.connect();
    let mut seen = Vec::new();
    for i in 0u8..5 {
        output.push_data(&mut ports, block(&[i, i + 1])).unwrap();
        seen.push(input.pull_data(&mut ports).unwrap().into_bytes());
    }
    assert_eq!(seen, vec![vec![0, 1], vec![1, 2], vec![2, 3], vec![3, 4], vec![4, 5]]);
}

#[test]
fn need_data_opens_the_port_for_the_producer() {
    let mut ports = Ports::new();
    let (output, input) = ports.connect();
    assert!(!output.can_push(&ports));
    input.set_need_data(&mut ports);
    assert!(output.can_push(&ports));
    output.push_data(&mut ports, block(b"x")).unwrap();
    assert!(!output.can_push(&ports));
    assert_eq!(
        ports.flags(0),
        PortFlags { has_data: true, need_data: true, finished: false }
    );
    input.pull_data(&mut ports).unwrap();
    assert!(output.can_push(&ports));
}

#[test]
fn finish_is_seen_by_both_sides_and_stays() {
    let mut ports = Ports::new();
    let (output, input) = ports.connect();
    let (other_output, other_input) = ports.connect();

    input.finish(&mut ports);
    assert!(output.is_finished(&ports));
    assert!(input.is_finished(&ports));
    assert!(!other_input.is_finished(&ports));

    other_output.finish(&mut ports);
    assert!(other_input.is_finished(&ports));

    input.finish(&mut ports);
    output.finish(&mut ports);
    input.set_need_data(&mut ports);
    let _ = output.push_data(&mut ports, block(b"late"));
    let _ = input.pull_data(&mut ports);
    assert!(input.is_finished(&ports));
    assert!(output.is_finished(&ports));
}

#[test]
fn finish_all_closes_every_port() {
    let mut ports = Ports::new();
    let (_a, first) = ports.connect();
    let (_b, second) = ports.connect();
    assert!(!ports.all_finished());
    first.finish(&mut ports);
    assert!(!ports.all_finished());
    ports.finish_all();
    assert!(ports.all_finished());
    assert!(first.is_finished(&ports));
    assert!(second.is_finished(&ports));
}

#[test]
fn a_block_keeps_its_bytes() {
    let b = block(b"abc");
    assert_eq!(b.len(), 3);
    assert!(!b.is_empty());
    assert_eq!(b.bytes(), &b"abc".to_vec());
    assert!(DataBlock::empty().is_empty());
    assert_eq!(b.into_bytes(), b"abc".to_vec());
}
