use spdmlib::msgs::encoding::{ReadError, ReadErrorKind, WriteError};
use spdmlib::msgs::version::{Version, VersionEntry};
use spdmlib::msgs::Msg;
use spdmlib::requester::version::select_version;
use spdmlib::requester::{start, CapabilitiesState, RequesterError, VersionState};
use spdmlib::responder;
use spdmlib::transcript::TRANSCRIPT_SIZE;
use spdmlib::Transcript;

fn entry(major: u8, minor: u8) -> VersionEntry {
    VersionEntry { major, minor, update: 0, alpha: 0 }
}

fn list(entries: &[VersionEntry]) -> Version {
    let mut v = Version::empty();
    v.num_entries = entries.len() as u8;
    for (i, e) in entries.iter().enumerate() {
        v.entries[i] = *e;
    }
    v
}

fn answer(v: &Version) -> Vec<u8> {
    let mut buf = [0u8; 16];
    let n = v.write(&mut buf).unwrap();
    buf[..n].to_vec()
}

#[test]
fn selects_the_greatest_match() {
    let supported = Version::default();
    let offered = list(&[entry(1, 0), entry(1, 1)]);
    assert_eq!(select_version(&offered, &supported), Some(entry(1, 1)));
    let offered = list(&[entry(1, 1), entry(1, 0)]);
    assert_eq!(select_version(&offered, &supported), Some(entry(1, 1)));
}

#[test]
fn selects_the_only_match() {
    let supported = Version::default();
    let offered = list(&[entry(1, 0)]);
    assert_eq!(select_version(&offered, &supported), Some(entry(1, 0)));
    let offered = list(&[entry(2, 0), entry(1, 0)]);
    assert_eq!(select_version(&offered, &supported), Some(entry(1, 0)));
}

#[test]
fn selects_nothing_without_a_match() {
    let supported = Version::default();
    assert_eq!(select_version(&list(&[entry(2, 0)]), &supported), None);
    assert_eq!(select_version(&list(&[]), &supported), None);
    let near = VersionEntry { major: 1, minor: 1, update: 0, alpha: 1 };
    assert_eq!(select_version(&list(&[near]), &supported), None);
}

#[test]
fn entries_behind_the_count_do_not_count() {
    let supported = Version::default();
    let offered = Version { num_entries: 1, entries: [entry(1, 0), entry(1, 1)] };
    assert_eq!(select_version(&offered, &supported), Some(entry(1, 0)));
    assert!(offered.contains(entry(1, 0)));
    assert!(!offered.contains(entry(1, 1)));
}

#[test]
fn version_query_is_four_bytes() {
    let state = start();
    let mut buf = [0xffu8; 8];
    assert_eq!(state.write_get_version(&mut buf), Ok(4));
    assert_eq!(&buf[..4], &[0x10, 0x84, 0, 0]);
    assert_eq!(&buf[4..], &[0xff; 4]);
    let mut short = [0u8; 3];
    assert_eq!(
        state.write_get_version(&mut short),
        Err(RequesterError::Write(WriteError::new("GET_VERSION", 3)))
    );
}

#[test]
fn query_fed_back_as_answer_is_unexpected() {
    let state = start();
    let mut query = [0u8; 4];
    assert_eq!(state.write_get_version(&mut query), Ok(4));
    let mut transcript = Transcript::new();
    let r = state.handle_msg(&query, &mut transcript);
    match r {
        Err(RequesterError::UnexpectedMsg { expected, got }) => {
            assert_eq!(expected, "VERSION");
            assert_eq!(got, 0x84);
            assert_eq!(got, query[1]);
        }
        other => panic!("{:?}", other),
    }
    assert_eq!(transcript.len(), 0);
}

#[test]
fn answer_leads_to_the_next_state() {
    let state: VersionState = start();
    let mut transcript = Transcript::new();
    let rsp = answer(&Version::default());
    assert_eq!(rsp, vec![0x10, 0x04, 0, 0, 0, 2, 0x00, 0x10, 0x00, 0x11]);
    let next: CapabilitiesState = state.handle_msg(&rsp, &mut transcript).unwrap();
    assert_eq!(next.version(), entry(1, 1));
    let mut both = vec![0x10, 0x84, 0, 0];
    both.extend_from_slice(&rsp);
    assert_eq!(transcript.get(), &both[..]);
}

#[test]
fn requester_and_responder_agree() {
    let state = start();
    let mut query = [0u8; 4];
    assert_eq!(state.write_get_version(&mut query), Ok(4));
    let mut rsp = [0u8; 32];
    let n = responder::handle_msg(&query, &mut rsp).unwrap();
    assert_eq!(n, 10);
    let mut transcript = Transcript::new();
    let next = state.handle_msg(&rsp[..n], &mut transcript).unwrap();
    assert_eq!(next.version(), entry(1, 1));
    assert_eq!(transcript.len(), 14);
    assert_eq!(&transcript.get()[..4], &query);
    assert_eq!(&transcript.get()[4..], &rsp[..n]);
}

#[test]
fn answer_with_one_version() {
    let mut transcript = Transcript::new();
    let rsp = answer(&list(&[entry(1, 0)]));
    let next = start().handle_msg(&rsp, &mut transcript).unwrap();
    assert_eq!(next.version(), entry(1, 0));
    assert_eq!(CapabilitiesState::new(entry(1, 0)).version(), entry(1, 0));
}

#[test]
fn answer_without_a_supported_version() {
    let mut transcript = Transcript::new();
    let offered = list(&[entry(2, 0)]);
    let rsp = answer(&offered);
    let r = start().handle_msg(&rsp, &mut transcript);
    match r {
        Err(RequesterError::NoSupportedVersions { received }) => assert_eq!(received, offered),
        other => panic!("{:?}", other),
    }
    assert_eq!(transcript.len(), 0);
}

#[test]
fn answer_with_too_many_versions() {
    let mut transcript = Transcript::new();
    let rsp = [0x10u8, 0x04, 0, 0, 0, 3, 0x00, 0x10, 0x00, 0x11, 0x00, 0x12];
    let r = start().handle_msg(&rsp, &mut transcript);
    assert!(matches!(r, Err(RequesterError::TooManyVersions)));
    assert_eq!(transcript.len(), 0);
}

#[test]
fn answer_with_a_wrong_version_byte() {
    let mut transcript = Transcript::new();
    let rsp = [0x11u8, 0x04, 0, 0, 0, 1, 0x00, 0x10];
    let r = start().handle_msg(&rsp, &mut transcript);
    match r {
        Err(RequesterError::Read(e)) => {
            assert_eq!(e, ReadError::new("VERSION", ReadErrorKind::Header))
        }
        other => panic!("{:?}", other),
    }
}

#[test]
fn malformed_answers_are_typed_errors() {
    let cases: [(&[u8], ReadErrorKind); 6] = [
        (&[], ReadErrorKind::Empty),
        (&[0x10], ReadErrorKind::Empty),
        (&[0x10, 0x04], ReadErrorKind::Empty),
        (&[0x10, 0x04, 0, 0, 0, 2, 0x00, 0x10, 0x00], ReadErrorKind::Empty),
        (&[0x10, 0x04, 0, 1, 0, 1, 0x00, 0x10], ReadErrorKind::ReservedBytesNotZero),
        (&[0x10, 0x04, 0xff], ReadErrorKind::ReservedBytesNotZero),
    ];
    for (rsp, kind) in cases.iter() {
        let mut transcript = Transcript::new();
        let r = start().handle_msg(rsp, &mut transcript);
        match r {
            Err(RequesterError::Read(e)) => assert_eq!(e, ReadError::new("VERSION", *kind)),
            other => panic!("{:?}", other),
        }
        assert_eq!(transcript.len(), 0);
    }
}

#[test]
fn exchange_that_does_not_fit_the_transcript() {
    let mut transcript = Transcript::new();
    let fill = vec![0u8; TRANSCRIPT_SIZE - 13];
    assert_eq!(transcript.extend(&fill), Ok(()));
    let rsp = answer(&Version::default());
    let r = start().handle_msg(&rsp, &mut transcript);
    match r {
        Err(RequesterError::Write(e)) => {
            assert_eq!(e, WriteError::new("TRANSCRIPT", TRANSCRIPT_SIZE))
        }
        other => panic!("{:?}", other),
    }
    // neither the query nor the answer was recorded
    assert_eq!(transcript.len(), TRANSCRIPT_SIZE - 13);
    let mut transcript = Transcript::new();
    let fill = vec![0u8; TRANSCRIPT_SIZE - 14];
    assert_eq!(transcript.extend(&fill), Ok(()));
    assert!(start().handle_msg(&rsp, &mut transcript).is_ok());
    assert_eq!(transcript.len(), TRANSCRIPT_SIZE);
}

#[test]
fn errors_convert_into_requester_errors() {
    let w = WriteError::new("A", 1);
    assert_eq!(RequesterError::from(w), RequesterError::Write(w));
    let r = ReadError::new("B", ReadErrorKind::Unaligned);
    assert_eq!(RequesterError::from(r), RequesterError::Read(r));
}
