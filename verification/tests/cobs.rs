use hexmeow_motor_iap::cobs::{cobs_decode, cobs_encode};

#[test]
fn runs_are_counted_and_zeros_replaced() {
    assert_eq!(cobs_encode(&[]), vec![1]);
    assert_eq!(cobs_encode(&[0]), vec![1, 1]);
    assert_eq!(cobs_encode(&[0x11, 0x22, 0, 0x33]), vec![3, 0x11, 0x22, 2, 0x33]);
}

#[test]
fn a_full_run_needs_no_zero_after_it() {
    let full = vec![7u8; 254];
    let encoded = cobs_encode(&full);
    assert_eq!(encoded[0], 0xFF);
    assert_eq!(cobs_decode(&encoded).unwrap(), full);

    let mut longer = full.clone();
    longer.push(9);
    let encoded = cobs_encode(&longer);
    assert_eq!(encoded[0], 0xFF);
    assert_eq!(&encoded[255..], [2, 9]);
    assert_eq!(cobs_decode(&encoded).unwrap(), longer);
}

#[test]
fn encoding_round_trips_without_zeros() {
    for size in 0..600usize {
        let raw: Vec<u8> = (0..size)
            .map(|index| if index % 97 == 13 { 0 } else { (index * 31 % 255) as u8 })
            .collect();
        let encoded = cobs_encode(&raw);
        assert!(!encoded.contains(&0));
        assert_eq!(cobs_decode(&encoded).unwrap(), raw);
    }
}

#[test]
fn what_is_no_encoding_is_refused() {
    assert_eq!(cobs_decode(&[5, 1, 2]), None);
    assert_eq!(cobs_decode(&[0]), None);
    assert_eq!(cobs_decode(&[2, 1, 0]), None);
}

#[test]
fn a_run_is_taken_as_it_stands() {
    assert_eq!(cobs_decode(&[2, 0]), Some(vec![0]));
    assert_eq!(cobs_decode(&[]), None);
    assert_eq!(cobs_decode(&[1]), Some(vec![]));
}
