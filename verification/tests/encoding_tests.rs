use tsid::TSID;

#[test]
fn encoding_is_thirteen_digits_most_significant_first() {
    assert_eq!("0000000000000", TSID::new(0).to_string());
    assert_eq!("0000000000001", TSID::new(1).to_string());
    assert_eq!("000000000000Z", TSID::new(31).to_string());
    assert_eq!("0000000000010", TSID::new(32).to_string());
    assert_eq!("FZZZZZZZZZZZZ", TSID::new(u64::MAX).to_string());
}

#[test]
fn encoding_uses_the_crockford_alphabet() {
    // Digits ten upward map to letters with I, L, O and U left out.
    assert_eq!("000000000000A", TSID::new(10).to_string());
    assert_eq!("000000000000J", TSID::new(18).to_string());
    assert_eq!("000000000000M", TSID::new(20).to_string());
    assert_eq!("000000000000V", TSID::new(27).to_string());
}

#[test]
fn encoding_sorts_as_the_raw_integers_do() {
    let samples: [u64; 8] = [
        0,
        1,
        31,
        32,
        0x3fffff,
        0x400000,
        0x0123_4567_89ab_cdef,
        u64::MAX,
    ];
    for i in 0..samples.len() {
        for j in 0..samples.len() {
            let si = TSID::new(samples[i]).to_string();
            let sj = TSID::new(samples[j]).to_string();
            assert_eq!(samples[i] < samples[j], si < sj);
        }
    }
}
