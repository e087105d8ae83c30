use spdmlib::msgs::encoding::WriteError;
use spdmlib::transcript::TRANSCRIPT_SIZE;
use spdmlib::Transcript;

#[test]
fn transcript_starts_empty() {
    let t = Transcript::new();
    assert_eq!(t.get(), &[] as &[u8]);
    assert_eq!(t.len(), 0);
    assert_eq!(t.remaining(), TRANSCRIPT_SIZE);
}

#[test]
fn transcript_keeps_bytes_in_order() {
    let mut t = Transcript::new();
    assert_eq!(t.extend(&[1, 2, 3]), Ok(()));
    assert_eq!(t.extend(&[]), Ok(()));
    assert_eq!(t.extend(&[4, 5]), Ok(()));
    assert_eq!(t.get(), &[1, 2, 3, 4, 5]);
    assert_eq!(t.len(), 5);
    assert_eq!(t.remaining(), TRANSCRIPT_SIZE - 5);
}

#[test]
fn transcript_refuses_what_does_not_fit() {
    let mut t = Transcript::new();
    let most = vec![0xa5u8; TRANSCRIPT_SIZE - 1];
    assert_eq!(t.extend(&most), Ok(()));
    assert_eq!(t.len(), TRANSCRIPT_SIZE - 1);
    assert_eq!(
        t.extend(&[1, 2]),
        Err(WriteError::new("TRANSCRIPT", TRANSCRIPT_SIZE))
    );
    // the failed call changed nothing
    assert_eq!(t.len(), TRANSCRIPT_SIZE - 1);
    assert_eq!(t.get(), &most[..]);
    assert_eq!(t.extend(&[9]), Ok(()));
    assert_eq!(t.len(), TRANSCRIPT_SIZE);
    assert_eq!(t.get()[TRANSCRIPT_SIZE - 1], 9);
    assert_eq!(
        t.extend(&[0]),
        Err(WriteError::new("TRANSCRIPT", TRANSCRIPT_SIZE))
    );
    assert_eq!(t.extend(&[]), Ok(()));
}

#[test]
fn transcript_refuses_more_than_its_capacity_at_once() {
    let mut t = Transcript::new();
    let too_much = vec![1u8; TRANSCRIPT_SIZE + 1];
    assert_eq!(
        t.extend(&too_much),
        Err(WriteError::new("TRANSCRIPT", TRANSCRIPT_SIZE))
    );
    assert_eq!(t.len(), 0);
}

#[test]
fn transcript_clear_forgets_everything() {
    let mut t = Transcript::new();
    assert_eq!(t.extend(&[1, 2, 3]), Ok(()));
    t.clear();
    assert_eq!(t.len(), 0);
    assert_eq!(t.get(), &[] as &[u8]);
    assert_eq!(t.extend(&[7]), Ok(()));
    assert_eq!(t.get(), &[7]);
}
