use tsid::factory::TIME_BITS;
use tsid::TsidFactory;
use tsid::TSID;

#[test]
fn builder_should_set_all_masks_for_8node_bits_version() {
    let factory_under_test = TsidFactory::with_node_bits(8, 0);
    println!("{:?}", factory_under_test);

    assert_eq!(8, factory_under_test.node_bits);
    assert_eq!(14, factory_under_test.counter_bits);
    assert_eq!(0x3fff, factory_under_test.counter_mask);
    assert_eq!(0xff, factory_under_test.node_mask);
    assert_eq!(
        64,
        TIME_BITS + factory_under_test.counter_bits + factory_under_test.node_bits
    )
}

#[test]
fn builder_should_set_all_masks_for_0node_bits_version() {
    let factory_under_test = TsidFactory::with_node_bits(0, 0);
    println!("{:?}", factory_under_test);

    assert_eq!(0, factory_under_test.node_bits);
    assert_eq!(22, factory_under_test.counter_bits);
    assert_eq!(0x3fffff, factory_under_test.counter_mask);
    assert_eq!(0x0, factory_under_test.node_mask);
    assert_eq!(
        64,
        TIME_BITS + factory_under_test.counter_bits + factory_under_test.node_bits
    )
}

#[test]
fn create_tsid() {
    let mut factory_under_test = TsidFactory::with_node_bits(8, 1);
    let _tsid = factory_under_test.create();
    println!("{}", _tsid.to_string())
}

#[test]
fn masks_follow_node_bits_for_every_valid_width() {
    for node_bits in 0u8..=22u8 {
        let f = TsidFactory::with_node_bits(node_bits, 3);
        assert_eq!(22, f.counter_bits + f.node_bits);
        assert_eq!(0x3fffffu64 >> node_bits, f.counter_mask);
        assert_eq!(0x3fffffu64 >> (22 - node_bits), f.node_mask);
    }
}

#[test]
fn new_and_default_give_zero_node_bits() {
    let f = TsidFactory::new();
    assert_eq!(0, f.node_bits);
    assert_eq!(22, f.counter_bits);
    assert_eq!(0x3fffff, f.counter_mask);
    assert_eq!(0, f.node_mask);
    assert_eq!(0, f.node);

    let d = TsidFactory::default();
    assert_eq!(0, d.node_bits);
    assert_eq!(0, d.node);
}

#[test]
fn created_identifiers_increase_strictly() {
    let mut f = TsidFactory::with_node_bits(8, 1);
    let mut prev = f.create().number();
    for _ in 0..20_000 {
        let next = f.create().number();
        assert!(next > prev);
        prev = next;
    }
}

#[test]
fn identifiers_increase_with_a_stalled_clock() {
    let mut f = TsidFactory::with_node_bits(8, 1);
    f.last_time_value = 1_000;
    f.counter = 0;
    let mut prev = f.create_at(1_000, 7).number();
    // The clock never advances: the counter, then the synthetic time bump,
    // must keep the output increasing.
    for _ in 0..40_000 {
        let next = f.create_at(1_000, 7).number();
        assert!(next > prev);
        prev = next;
    }
}

#[test]
fn field_extraction_round_trip() {
    let mut f = TsidFactory::with_node_bits(8, 0xab);
    f.last_time_value = 1234;
    f.counter = 7;
    // Same millisecond: the counter advances to 8.
    let id = f.create_at(1234, 0).number();
    assert_eq!(1234, id >> 22);
    assert_eq!(0xab, (id >> 14) & 0xff);
    assert_eq!(8, id & 0x3fff);
}

#[test]
fn node_value_is_truncated_to_its_width() {
    let mut f = TsidFactory::with_node_bits(2, 0xff);
    f.last_time_value = 50;
    f.counter = 0;
    let id = f.create_at(50, 0).number();
    assert_eq!(0xff & 0x3, (id >> 20) & 0x3);
    assert_eq!(50, id >> 22);
}

#[test]
fn counter_exhaustion_bumps_the_timestamp() {
    let mut f = TsidFactory::with_node_bits(8, 1);
    f.last_time_value = 5_000;
    f.counter = f.counter_mask;
    // Same millisecond with the counter at its mask: the recorded time must
    // advance by one tick and the counter field must stay within its mask.
    let id = f.create_at(5_000, 0x55aa).number();
    assert_eq!(5_001, id >> 22);
    assert_eq!(5_001, f.last_time_value);
    assert_eq!(0, id & f.counter_mask);
    assert!(id & f.counter_mask <= f.counter_mask);

    // A second exhaustion right after behaves the same way.
    f.counter = f.counter_mask;
    let id2 = f.create_at(5_000, 0).number();
    assert_eq!(5_002, id2 >> 22);
    assert!(id2 > id);
}

#[test]
fn widest_node_field_leaves_no_counter_room() {
    let mut f = TsidFactory::with_node_bits(22, 1);
    assert_eq!(0, f.counter_bits);
    assert_eq!(0, f.counter_mask);
    f.last_time_value = 9;
    f.counter = 0;
    // With no counter bits every same-millisecond call exhausts the counter.
    let id = f.create_at(9, 123).number();
    assert_eq!(10, id >> 22);
    assert_eq!(0, id & 0x3fffff & f.counter_mask);
}

#[test]
fn distinct_nodes_give_distinct_node_fields() {
    let mut f1 = TsidFactory::with_node_bits(8, 1);
    let mut f2 = TsidFactory::with_node_bits(8, 2);
    f1.last_time_value = 777;
    f2.last_time_value = 777;
    let id1 = f1.create_at(778, 3).number();
    let id2 = f2.create_at(778, 3).number();
    assert_ne!((id1 >> 14) & 0xff, (id2 >> 14) & 0xff);
    let t1 = id1 >> 22;
    let t2 = id2 >> 22;
    assert!(t1 <= t2 + 1 && t2 <= t1 + 1);
}

#[test]
fn fresh_millisecond_reseeds_the_counter() {
    let mut f = TsidFactory::with_node_bits(0, 0);
    f.last_time_value = 10;
    f.counter = 123;
    // The clock moved ahead: the counter comes from the random draw, masked.
    let id = f.create_at(11, 0xdead_beef_dead_beefu64).number();
    assert_eq!(11, id >> 22);
    assert_eq!(0xdead_beef_dead_beefu64 & 0x3fffff, id & 0x3fffff);
    assert_eq!(11, f.last_time_value);
}

#[test]
fn number_round_trips_through_the_wrapper() {
    let id = TSID::new(0x0123_4567_89ab_cdefu64);
    assert_eq!(0x0123_4567_89ab_cdefu64, id.number());
}
