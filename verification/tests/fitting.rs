use zip_pad::eocd::{comment_length, find_eocd};
use zip_pad::fit::{fit_to_length, padding_needed, Fitted, Oversize, Strategy};
use zip_pad::pad::{pad_zip_file, Refusal};

/// `body_len` bytes of data, then a record with `comment`.
fn jar(body_len: usize, comment: &[u8]) -> Vec<u8> {
    let mut bytes = vec![0x33u8; body_len];
    bytes.extend_from_slice(&[0x50, 0x4b, 0x05, 0x06]);
    bytes.extend_from_slice(&[0u8; 16]);
    bytes.extend_from_slice(&(comment.len() as u16).to_le_bytes());
    bytes.extend_from_slice(comment);
    bytes
}

#[test]
fn padding_needed_is_the_difference() {
    assert_eq!(padding_needed(10, 15), Some(5));
    assert_eq!(padding_needed(10, 10), Some(0));
    assert_eq!(padding_needed(0, usize::MAX), Some(usize::MAX));
    assert_eq!(padding_needed(1000, 1500), Some(500));
}

#[test]
fn padding_needed_is_none_for_a_longer_buffer() {
    assert_eq!(padding_needed(11, 10), None);
    assert_eq!(padding_needed(usize::MAX, 0), None);
}

#[test]
fn buffer_of_the_target_length_is_unchanged() {
    let archive = jar(100, b"");
    let fitted = fit_to_length(archive.clone(), archive.len()).expect("fits");
    assert_eq!(fitted, Fitted { bytes: archive, strategy: Strategy::Unchanged });

    let plain = vec![5u8; 17];
    let fitted = fit_to_length(plain.clone(), 17).expect("fits");
    assert_eq!(fitted.strategy, Strategy::Unchanged);
    assert_eq!(fitted.bytes, plain);
}

#[test]
fn archive_grows_through_its_comment() {
    let archive = jar(978, b"");
    let fitted = fit_to_length(archive.clone(), 1500).expect("fits");
    assert_eq!(fitted.strategy, Strategy::Comment);
    assert_eq!(fitted.bytes.len(), 1500);
    assert_eq!(comment_length(&fitted.bytes, 978), Some(500));
    assert_eq!(Some(fitted.bytes), pad_zip_file(archive, 500));
}

#[test]
fn buffer_without_record_gets_zero_bytes_appended() {
    let data = vec![0x44u8; 300];
    assert_eq!(find_eocd(&data), None);
    assert_eq!(pad_zip_file(data.clone(), 200), None);
    let fitted = fit_to_length(data.clone(), 500).expect("fits");
    assert_eq!(fitted.strategy, Strategy::RawAppend(Refusal::NoRecord));
    assert_eq!(fitted.bytes.len(), 500);
    assert_eq!(&fitted.bytes[..300], &data[..]);
    assert!(fitted.bytes[300..].iter().all(|b| *b == 0));
}

#[test]
fn large_difference_gets_zero_bytes_appended() {
    let archive = jar(978, b"");
    let fitted = fit_to_length(archive.clone(), 71000).expect("fits");
    assert_eq!(fitted.strategy, Strategy::RawAppend(Refusal::PaddingTooLarge));
    assert_eq!(fitted.bytes.len(), 71000);
    assert_eq!(&fitted.bytes[..1000], &archive[..]);
    assert!(fitted.bytes[1000..].iter().all(|b| *b == 0));
}

#[test]
fn full_comment_gets_zero_bytes_appended() {
    let archive = jar(4, &[b'c'; 65000]);
    let target = archive.len() + 536;
    let fitted = fit_to_length(archive.clone(), target).expect("fits");
    assert_eq!(fitted.strategy, Strategy::RawAppend(Refusal::CommentTooLong));
    assert_eq!(fitted.bytes.len(), target);
    assert_eq!(&fitted.bytes[..archive.len()], &archive[..]);
    assert!(fitted.bytes[archive.len()..].iter().all(|b| *b == 0));

    let fitted = fit_to_length(archive.clone(), target - 1).expect("fits");
    assert_eq!(fitted.strategy, Strategy::Comment);
    assert_eq!(comment_length(&fitted.bytes, 4), Some(65535));
}

#[test]
fn longer_buffer_is_refused() {
    let archive = jar(978, b"");
    assert_eq!(fit_to_length(archive.clone(), 999), Err(Oversize { excess: 1 }));
    assert_eq!(fit_to_length(archive, 0), Err(Oversize { excess: 1000 }));
    assert_eq!(fit_to_length(vec![1, 2, 3], 1), Err(Oversize { excess: 2 }));
}

#[test]
fn result_always_has_the_target_length() {
    let buffers: Vec<Vec<u8>> = vec![
        Vec::new(),
        vec![9u8; 21],
        jar(0, b""),
        jar(10, b"hello"),
        jar(10, &[b'z'; 65535]),
    ];
    for data in &buffers {
        for extra in [0usize, 1, 255, 256, 65535, 65536, 100_000] {
            let target = data.len() + extra;
            let fitted = fit_to_length(data.clone(), target).expect("fits");
            assert_eq!(fitted.bytes.len(), target);
        }
    }
}

#[test]
fn empty_buffer_is_filled_with_zero_bytes() {
    let fitted = fit_to_length(Vec::new(), 4).expect("fits");
    assert_eq!(fitted.bytes, vec![0, 0, 0, 0]);
    assert_eq!(fitted.strategy, Strategy::RawAppend(Refusal::NoRecord));
}
