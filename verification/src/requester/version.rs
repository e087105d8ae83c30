//! Version negotiation, the first phase of a requester.

use crate::msgs::encoding::written;
use crate::msgs::encoding::ReadError;
use crate::msgs::encoding::ReadErrorKind;
use crate::msgs::encoding::WriteError;
use crate::msgs::frame;
use crate::msgs::header_result;
use crate::msgs::version::decode_entry;
use crate::msgs::version::decoded_entries;
use crate::msgs::version::entries_bytes;
use crate::msgs::version::lemma_entries_round_trip;
use crate::msgs::version::default_versions;
use crate::msgs::version::version_body_error;
use crate::msgs::version::GetVersion;
use crate::msgs::version::Version;
use crate::msgs::version::VersionEntry;
use crate::msgs::version::MAX_ALLOWED_VERSIONS;
use crate::msgs::Msg;
use crate::msgs::HEADER_SIZE;
use crate::requester::capabilities::CapabilitiesState;
use crate::requester::error::RequesterError;
use crate::responder::version_frame;
use crate::transcript::transcript_full;
use crate::transcript::Transcript;
use crate::transcript::TRANSCRIPT_SIZE;
use vstd::prelude::*;

verus! {

/// An entry that the responder offers and that is spoken here.
pub open spec fn common(
    e: VersionEntry,
    offered: Seq<VersionEntry>,
    supported: Seq<VersionEntry>,
) -> bool {
    offered.contains(e) && supported.contains(e)
}

/// What selection owes: the latest entry that both sides have, or nothing
/// when they have none in common.
pub open spec fn is_selection(
    r: Option<VersionEntry>,
    offered: Seq<VersionEntry>,
    supported: Seq<VersionEntry>,
) -> bool {
    match r {
        Some(best) => common(best, offered, supported) && forall|e: VersionEntry|
            common(e, offered, supported) ==> e.rank() <= best.rank(),
        None => forall|e: VersionEntry| !common(e, offered, supported),
    }
}

/// Two entries of one rank are the same entry.
pub proof fn lemma_rank_injective(a: VersionEntry, b: VersionEntry)
    requires
        a.rank() == b.rank(),
    ensures
        a == b,
{
}

/// Selection has one answer: two results that both meet `is_selection` are
/// the same.
pub proof fn lemma_selection_unique(
    r1: Option<VersionEntry>,
    r2: Option<VersionEntry>,
    offered: Seq<VersionEntry>,
    supported: Seq<VersionEntry>,
)
    requires
        is_selection(r1, offered, supported),
        is_selection(r2, offered, supported),
    ensures
        r1 == r2,
{
    if r1 is Some && r2 is Some {
        lemma_rank_injective(r1->0, r2->0);
    }
}

/// Picks the latest of the offered entries that is also supported. None in
/// common gives `None`: there is no falling back to an earlier version.
pub fn select_version(offered: &Version, supported: &Version) -> (r: Option<VersionEntry>)
    requires
        offered.num_entries <= MAX_ALLOWED_VERSIONS,
        supported.num_entries <= MAX_ALLOWED_VERSIONS,
    ensures
        is_selection(r, offered@, supported@),
{
    let mut best: Option<VersionEntry> = None;
    let mut i: usize = 0;
    while i < offered.num_entries as usize
        invariant
            i <= offered.num_entries <= 2,
            supported.num_entries <= 2,
            is_selection(best, offered@.take(i as int), supported@),
        decreases offered.num_entries - i,
    {
        let e = offered.entries[i];
        let later = match best {
            None => true,
            Some(b) => e.later_than(&b),
        };
        let ghost seen = offered@.take(i as int);
        let ghost next = offered@.take(i + 1);
        assert(next[i as int] == e);
        assert forall|x: VersionEntry| next.contains(x) implies seen.contains(x) || x == e by {
            let j = choose|j: int| 0 <= j < next.len() && next[j] == x;
            if j < i {
                assert(seen[j] == x);
            }
        }
        assert forall|x: VersionEntry| seen.contains(x) implies next.contains(x) by {
            let j = choose|j: int| 0 <= j < seen.len() && seen[j] == x;
            assert(next[j] == x);
        }
        if later && supported.contains(e) {
            best = Some(e);
        }
        assert(is_selection(best, next, supported@)) by {
            assert forall|x: VersionEntry| common(x, next, supported@) implies match best {
                Some(b) => x.rank() <= b.rank(),
                None => false,
            } by {
                if seen.contains(x) {
                    assert(common(x, seen, supported@));
                } else {
                    assert(x == e);
                }
            }
            if best is Some {
                assert(common(best->0, seen, supported@) || best->0 == e);
                assert(common(best->0, next, supported@));
            }
        }
        i += 1;
    }
    assert(offered@.take(i as int) =~= offered@);
    best
}

/// The state in which the requester asks for the responder's versions.
#[derive(Debug, Clone, Copy, PartialEq, Eq, Structural)]
pub struct VersionState {}

/// The bytes of the version query.
pub open spec fn get_version_frame() -> Seq<u8> {
    frame(GetVersion::spec_version(), GetVersion::spec_code(), (GetVersion {  }).body())
}

/// The versions that this side speaks: 1.0 and 1.1.
pub open spec fn supported_versions() -> Seq<VersionEntry> {
    default_versions()
}

/// What the answer `buf` to a version query leads to, with `recorded` bytes
/// in the transcript so far. The checks come in this order: the length of
/// the header, the header, the body, the selection, the room in the
/// transcript.
pub open spec fn version_outcome(
    buf: Seq<u8>,
    recorded: int,
    r: Result<CapabilitiesState, RequesterError>,
) -> bool {
    let name = Version::spec_name();
    let body = buf.subrange(2, buf.len() as int);
    let offered = decoded_entries(body);
    if buf.len() < 2 {
        r == Err::<CapabilitiesState, RequesterError>(
            RequesterError::Read(ReadError { msg: name, kind: ReadErrorKind::Empty }),
        )
    } else {
        match header_result(name, Version::spec_version(), Version::spec_code(), buf) {
            Ok(false) => r == Err::<CapabilitiesState, RequesterError>(
                RequesterError::UnexpectedMsg { expected: name, got: buf[1] },
            ),
            Err(e) => r == Err::<CapabilitiesState, RequesterError>(RequesterError::Read(e)),
            Ok(true) => match version_body_error(body) {
                Some(ReadErrorKind::TooManyEntries) => r == Err::<CapabilitiesState, RequesterError>(
                    RequesterError::TooManyVersions,
                ),
                Some(kind) => r == Err::<CapabilitiesState, RequesterError>(
                    RequesterError::Read(ReadError { msg: name, kind }),
                ),
                None => if !(exists|e: VersionEntry| common(e, offered, supported_versions())) {
                    r matches Err(RequesterError::NoSupportedVersions { received })
                        && received.num_entries == body[3] && received@ == offered && forall|
                        i: int,
                    |
                        received.num_entries <= i < 2 ==> received.entries[i] == decode_entry(0, 0)
                } else if recorded + 4 + buf.len() > TRANSCRIPT_SIZE {
                    r == Err::<CapabilitiesState, RequesterError>(
                        RequesterError::Write(transcript_full()),
                    )
                } else {
                    r matches Ok(s) && is_selection(
                        Some(s.negotiated()),
                        offered,
                        supported_versions(),
                    )
                },
            },
        }
    }
}

impl VersionState {
    /// Writes the version query to the start of `buf` and returns its
    /// length, 4.
    pub fn write_get_version(&self, buf: &mut [u8]) -> (r: Result<usize, RequesterError>)
        ensures
            final(buf)@ == written(old(buf)@, 0, get_version_frame()),
            old(buf)@.len() >= 4 ==> r == Ok::<usize, RequesterError>(4),
            old(buf)@.len() < 4 ==> r == Err::<usize, RequesterError>(
                RequesterError::Write(
                    WriteError { msg: GetVersion::spec_name(), buf_size: old(buf)@.len() as usize },
                ),
            ),
    {
        match (GetVersion {  }).write(buf) {
            Ok(n) => Ok(n),
            Err(e) => Err(RequesterError::Write(e)),
        }
    }

    /// Takes the responder's answer to the version query. On success the
    /// query and the answer are appended to the transcript, in that order,
    /// and the next state holds the version selected. On any error the
    /// transcript is left as it was.
    pub fn handle_msg(self, buf: &[u8], transcript: &mut Transcript) -> (r: Result<
        CapabilitiesState,
        RequesterError,
    >)
        requires
            old(transcript).wf(),
        ensures
            final(transcript).wf(),
            version_outcome(buf@, old(transcript)@.len() as int, r),
            r is Ok ==> final(transcript)@ == old(transcript)@ + get_version_frame() + buf@,
            r is Err ==> final(transcript)@ == old(transcript)@,
    {
        if buf.len() < HEADER_SIZE {
            return Err(RequesterError::Read(ReadError::new(Version::name(), ReadErrorKind::Empty)));
        }
        match Version::parse_header(buf) {
            Ok(true) => {},
            Ok(false) => {
                return Err(RequesterError::UnexpectedMsg { expected: Version::name(), got: buf[1] });
            },
            Err(e) => {
                return Err(RequesterError::Read(e));
            },
        }
        let version = match Version::parse_body(&buf[HEADER_SIZE..buf.len()]) {
            Ok(v) => v,
            Err(e) => {
                match e.kind {
                    ReadErrorKind::TooManyEntries => {
                        return Err(RequesterError::TooManyVersions);
                    },
                    _ => {
                        return Err(RequesterError::Read(e));
                    },
                }
            },
        };
        let supported = Version::default();
        let selected = match select_version(&version, &supported) {
            Some(e) => e,
            None => {
                return Err(RequesterError::NoSupportedVersions { received: version });
            },
        };
        assert(common(selected, version@, supported_versions()));
        // Both or neither: the room for the exchange is looked at before
        // anything is recorded.
        let room = transcript.remaining();
        if buf.len() > room || room - buf.len() < 4 {
            return Err(RequesterError::Write(WriteError::new("TRANSCRIPT", TRANSCRIPT_SIZE)));
        }
        let mut request: [u8; 4] = [0; 4];
        let _ = (GetVersion {  }).write(&mut request);
        assert(request@ =~= get_version_frame());
        let _ = transcript.extend(request.as_slice());
        let _ = transcript.extend(buf);
        Ok(CapabilitiesState::new(selected))
    }
}

/// A message under another code than that of the version list, the query
/// itself among them, is refused as unexpected, and the error carries the
/// code that arrived.
pub proof fn lemma_unexpected_msg(
    buf: Seq<u8>,
    recorded: int,
    r: Result<CapabilitiesState, RequesterError>,
)
    requires
        buf.len() >= 2,
        buf[1] != Version::spec_code(),
        version_outcome(buf, recorded, r),
    ensures
        r == Err::<CapabilitiesState, RequesterError>(
            RequesterError::UnexpectedMsg { expected: Version::spec_name(), got: buf[1] },
        ),
{
}

/// The responder's answer to the query, taken while the transcript has room
/// for the exchange, leads to the next state with version 1.1, the latest
/// that both sides speak.
pub proof fn lemma_answer_selects_latest(
    recorded: int,
    r: Result<CapabilitiesState, RequesterError>,
)
    requires
        recorded + 4 + version_frame().len() <= TRANSCRIPT_SIZE,
        version_outcome(version_frame(), recorded, r),
    ensures
        r matches Ok(s) && s.negotiated() == (VersionEntry {
            major: 1,
            minor: 1,
            update: 0,
            alpha: 0,
        }),
{
    let buf = version_frame();
    let es = default_versions();
    let body = seq![0u8, 0u8, 0u8, 2u8] + entries_bytes(es);
    lemma_entries_round_trip(es, 2, Seq::<u8>::empty());
    assert(buf.subrange(2, buf.len() as int) =~= body + Seq::<u8>::empty());
    let latest = VersionEntry { major: 1, minor: 1, update: 0, alpha: 0 };
    assert(es[1] == latest);
    assert(common(latest, es, supported_versions()));
    if r is Ok {
        let got = r->Ok_0.negotiated();
        assert(got.rank() >= latest.rank());
        lemma_rank_injective(got, latest);
    }
}

} // verus!
