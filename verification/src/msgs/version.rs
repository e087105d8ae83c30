//! The two messages of version negotiation: the query and the list of
//! versions that answers it.

use crate::msgs::encoding::lemma_nibbles;
use crate::msgs::encoding::lemma_write_failed;
use crate::msgs::encoding::lemma_write_then;
use crate::msgs::encoding::write_result;
use crate::msgs::encoding::ReadError;
use crate::msgs::encoding::ReadErrorKind;
use crate::msgs::encoding::Reader;
use crate::msgs::encoding::WriteError;
use crate::msgs::encoding::Writer;
use crate::msgs::encoding::written;
use crate::msgs::frame;
use crate::msgs::header_result;
use crate::msgs::lemma_frame_written;
use crate::msgs::Msg;
use vstd::prelude::*;

verus! {

/// The query for the versions that the other side speaks.
#[derive(Debug, Clone, Copy, PartialEq, Eq)]
pub struct GetVersion {}

impl Msg for GetVersion {
    open spec fn spec_name() -> &'static str {
        "GET_VERSION"
    }

    open spec fn spec_version() -> u8 {
        0x10
    }

    open spec fn spec_code() -> u8 {
        0x84
    }

    open spec fn valid(&self) -> bool {
        true
    }

    /// Two reserved bytes.
    open spec fn body(&self) -> Seq<u8> {
        seq![0u8, 0u8]
    }

    fn name() -> &'static str {
        "GET_VERSION"
    }

    fn spdm_version() -> u8 {
        0x10
    }

    fn spdm_code() -> u8 {
        0x84
    }

    fn write_body(&self, w: &mut Writer) -> (r: Result<usize, WriteError>) {
        let reserved: [u8; 2] = [0, 0];
        let r = w.extend(reserved.as_slice());
        assert(reserved@ =~= seq![0u8, 0u8]);
        r
    }
}

/// Why the body of a version query is refused, if it is: it is shorter than
/// its two reserved bytes, or one of them is set.
pub open spec fn get_version_body_error(buf: Seq<u8>) -> Option<ReadErrorKind> {
    if buf.len() < 2 {
        Some(ReadErrorKind::Empty)
    } else if buf[0] != 0 || buf[1] != 0 {
        Some(ReadErrorKind::ReservedBytesNotZero)
    } else {
        None
    }
}

impl GetVersion {
    pub fn parse_body(buf: &[u8]) -> (r: Result<GetVersion, ReadError>)
        ensures
            match get_version_body_error(buf@) {
                Some(kind) => r == Err::<GetVersion, ReadError>(
                    ReadError { msg: Self::spec_name(), kind },
                ),
                None => r == Ok::<GetVersion, ReadError>(GetVersion {  }),
            },
    {
        if buf.len() < 2 {
            return Err(ReadError::new(Self::name(), ReadErrorKind::Empty));
        }
        // Reserved bytes
        if buf[0] != 0 || buf[1] != 0 {
            Err(ReadError::new(Self::name(), ReadErrorKind::ReservedBytesNotZero))
        } else {
            Ok(GetVersion {  })
        }
    }
}

/// The most entries that a version list may carry.
pub const MAX_ALLOWED_VERSIONS: u8 = 2;

/// One protocol version. The four fields are ordered as written: `major`
/// weighs most, `alpha` least.
#[derive(Default, Debug, Copy, Clone, PartialEq, Eq, PartialOrd, Ord, Structural)]
pub struct VersionEntry {
    pub major: u8,
    pub minor: u8,
    pub update: u8,
    pub alpha: u8,
}

impl VersionEntry {
    /// Each field fits the four bits that it has on the wire.
    pub open spec fn wf(&self) -> bool {
        self.major < 16 && self.minor < 16 && self.update < 16 && self.alpha < 16
    }

    /// The place of this entry in the order of versions: a greater rank is a
    /// later version, and two entries of one rank are the same entry.
    pub open spec fn rank(&self) -> int {
        ((self.major * 256 + self.minor) * 256 + self.update) * 256 + self.alpha
    }

    /// Whether this entry is a later version than `other`.
    pub fn later_than(&self, other: &VersionEntry) -> (b: bool)
        ensures
            b == (self.rank() > other.rank()),
    {
        if self.major != other.major {
            self.major > other.major
        } else if self.minor != other.minor {
            self.minor > other.minor
        } else if self.update != other.update {
            self.update > other.update
        } else {
            self.alpha > other.alpha
        }
    }
}

/// The two bytes of an entry on the wire: `update` over `alpha`, then `major`
/// over `minor`, each in four bits.
pub open spec fn entry_bytes(e: VersionEntry) -> Seq<u8> {
    seq![(e.update * 16 + e.alpha) as u8, (e.major * 16 + e.minor) as u8]
}

/// The entries' bytes, one entry after the other.
pub open spec fn entries_bytes(es: Seq<VersionEntry>) -> Seq<u8>
    decreases es.len(),
{
    if es.len() == 0 {
        Seq::<u8>::empty()
    } else {
        entries_bytes(es.drop_last()) + entry_bytes(es.last())
    }
}

/// The entry that two bytes of the wire spell.
pub open spec fn decode_entry(b0: u8, b1: u8) -> VersionEntry {
    VersionEntry { major: b1 / 16, minor: b1 % 16, update: b0 / 16, alpha: b0 % 16 }
}

/// Why the body of a version list is refused, if it is. The three reserved
/// bytes are looked at in turn, then the count, then the room for the
/// entries; the first fault found decides.
pub open spec fn version_body_error(buf: Seq<u8>) -> Option<ReadErrorKind> {
    if buf.len() < 1 {
        Some(ReadErrorKind::Empty)
    } else if buf[0] != 0 {
        Some(ReadErrorKind::ReservedBytesNotZero)
    } else if buf.len() < 2 {
        Some(ReadErrorKind::Empty)
    } else if buf[1] != 0 {
        Some(ReadErrorKind::ReservedBytesNotZero)
    } else if buf.len() < 3 {
        Some(ReadErrorKind::Empty)
    } else if buf[2] != 0 {
        Some(ReadErrorKind::ReservedBytesNotZero)
    } else if buf.len() < 4 {
        Some(ReadErrorKind::Empty)
    } else if buf[3] > MAX_ALLOWED_VERSIONS {
        Some(ReadErrorKind::TooManyEntries)
    } else if buf.len() < 4 + 2 * buf[3] {
        Some(ReadErrorKind::Empty)
    } else {
        None
    }
}

/// The entries that the body of a version list carries.
pub open spec fn decoded_entries(buf: Seq<u8>) -> Seq<VersionEntry> {
    Seq::new(buf[3] as nat, |i: int| decode_entry(buf[4 + 2 * i], buf[5 + 2 * i]))
}

/// The list of versions that a responder offers.
#[derive(Debug, Clone, PartialEq, Eq)]
pub struct Version {
    pub num_entries: u8,
    pub entries: [VersionEntry; 2],
}

impl View for Version {
    type V = Seq<VersionEntry>;

    /// The entries that count: the first `num_entries` of the array.
    open spec fn view(&self) -> Seq<VersionEntry> {
        self.entries@.take(self.num_entries as int)
    }
}

impl Version {
    /// No more entries than the array holds, and each that counts fits the
    /// wire.
    pub open spec fn wf(&self) -> bool {
        &&& self.num_entries <= MAX_ALLOWED_VERSIONS
        &&& forall|i: int| 0 <= i < self.num_entries ==> (#[trigger] self.entries[i]).wf()
    }

    /// Whether `e` is one of the entries that count.
    pub fn contains(&self, e: VersionEntry) -> (b: bool)
        requires
            self.num_entries <= MAX_ALLOWED_VERSIONS,
        ensures
            b == self@.contains(e),
    {
        let mut i: usize = 0;
        while i < self.num_entries as usize
            invariant
                i <= self.num_entries <= 2,
                forall|j: int| 0 <= j < i ==> self@[j] != e,
            decreases self.num_entries - i,
        {
            if self.entries[i] == e {
                assert(self@[i as int] == e);
                return true;
            }
            i += 1;
        }
        false
    }

    /// The list without entries.
    pub fn empty() -> (v: Version)
        ensures
            v.wf(),
            v.num_entries == 0,
            forall|i: int| 0 <= i < 2 ==> v.entries[i] == decode_entry(0, 0),
    {
        let zero = VersionEntry { major: 0, minor: 0, update: 0, alpha: 0 };
        Version { num_entries: 0, entries: [zero, zero] }
    }
}

/// The versions that are published, 1.0 and 1.1. They have no update or
/// alpha modifiers.
pub open spec fn default_versions() -> Seq<VersionEntry> {
    seq![
        VersionEntry { major: 1, minor: 0, update: 0, alpha: 0 },
        VersionEntry { major: 1, minor: 1, update: 0, alpha: 0 },
    ]
}

// There are only 2 published versions (1.0 and 1.1)
// They don't have update or alpha modifiers.
impl Default for Version {
    fn default() -> (v: Version)
        ensures
            v.wf(),
            v.num_entries == 2,
            v@ == default_versions(),
    {
        let v = Version {
            num_entries: 2,
            entries: [
                VersionEntry { major: 1, minor: 0, update: 0, alpha: 0 },
                VersionEntry { major: 1, minor: 1, update: 0, alpha: 0 },
            ],
        };
        assert(v@ =~= seq![
            VersionEntry { major: 1, minor: 0, update: 0, alpha: 0 },
            VersionEntry { major: 1, minor: 1, update: 0, alpha: 0 },
        ]);
        v
    }
}

/// The bytes of the first `k` entries are the first `2 * k` bytes of all.
pub proof fn lemma_entries_bytes_take(es: Seq<VersionEntry>, k: int)
    requires
        0 <= k <= es.len(),
    ensures
        entries_bytes(es).len() == 2 * es.len(),
        entries_bytes(es.take(k)) == entries_bytes(es).take(2 * k),
    decreases es.len(),
{
    if es.len() == 0 {
        assert(es.take(k) =~= es);
        assert(entries_bytes(es).take(0) =~= entries_bytes(es));
    } else {
        lemma_entries_bytes_take(es.drop_last(), if k < es.len() { k } else { k - 1 });
        if k == es.len() {
            assert(es.take(k) =~= es);
            assert(entries_bytes(es).take(2 * k) =~= entries_bytes(es));
        } else {
            assert(es.take(k) =~= es.drop_last().take(k));
            assert(entries_bytes(es).take(2 * k) =~= entries_bytes(es.drop_last()).take(2 * k));
        }
    }
}

impl Msg for Version {
    open spec fn spec_name() -> &'static str {
        "VERSION"
    }

    open spec fn spec_version() -> u8 {
        0x10
    }

    open spec fn spec_code() -> u8 {
        0x04
    }

    open spec fn valid(&self) -> bool {
        self.wf()
    }

    /// Three reserved bytes, the count, and two bytes for each entry that
    /// counts.
    open spec fn body(&self) -> Seq<u8> {
        seq![0u8, 0u8, 0u8, self.num_entries] + entries_bytes(self@)
    }

    fn name() -> &'static str {
        "VERSION"
    }

    fn spdm_version() -> u8 {
        0x10
    }

    fn spdm_code() -> u8 {
        0x04
    }

    fn write_body(&self, w: &mut Writer) -> (r: Result<usize, WriteError>) {
        let ghost pre = w.state();
        let ghost head = seq![0u8, 0u8, 0u8, self.num_entries];
        let ghost es = self@;
        // Reserved bytes, then the count
        let fixed: [u8; 4] = [0, 0, 0, self.num_entries];
        let r0 = w.extend(fixed.as_slice());
        assert(fixed@ =~= head);
        if r0.is_err() {
            proof {
                lemma_write_failed(pre, w.state(), head, entries_bytes(es), r0);
            }
            return r0;
        }
        let mut i: usize = 0;
        assert(head + entries_bytes(es.take(0)) =~= head);
        while i < self.num_entries as usize
            invariant
                i <= self.num_entries <= 2,
                self.wf(),
                es == self@,
                head == seq![0u8, 0u8, 0u8, self.num_entries],
                w.wf(),
                pre == old(w).state(),
                0 <= pre.offset <= pre.buf.len(),
                write_result(
                    pre,
                    w.state(),
                    head + entries_bytes(es.take(i as int)),
                    Ok::<usize, WriteError>(w.offset),
                ),
                final(w.buf)@ == final(old(w).buf)@,
            decreases self.num_entries - i,
        {
            let v = self.entries[i];
            let ghost mid = w.state();
            let ghost done = head + entries_bytes(es.take(i as int));
            assert(v.wf() && v == es[i as int]);
            let (update, alpha, major, minor) = (v.update, v.alpha, v.major, v.minor);
            assert(alpha | (update << 4) == (update * 16 + alpha) as u8) by (bit_vector)
                requires
                    alpha < 16,
                    update < 16,
            ;
            assert(minor | (major << 4) == (major * 16 + minor) as u8) by (bit_vector)
                requires
                    minor < 16,
                    major < 16,
            ;
            let pair: [u8; 2] = [v.alpha | (v.update << 4), v.minor | (v.major << 4)];
            let r = w.extend(pair.as_slice());
            proof {
                assert(pair@ =~= entry_bytes(v));
                assert(es.take(i + 1).drop_last() =~= es.take(i as int));
                assert(done + entry_bytes(v) =~= head + entries_bytes(es.take(i + 1)));
                lemma_write_then(
                    pre,
                    mid,
                    w.state(),
                    done,
                    entry_bytes(v),
                    Ok::<usize, WriteError>(mid.offset as usize),
                    r,
                );
            }
            if r.is_err() {
                proof {
                    let sent = head + entries_bytes(es.take(i + 1));
                    let rest = entries_bytes(es).skip(2 * (i + 1));
                    lemma_entries_bytes_take(es, i + 1);
                    assert(sent + rest =~= head + entries_bytes(es));
                    lemma_write_failed(pre, w.state(), sent, rest, r);
                }
                return r;
            }
            i += 1;
        }
        assert(es.take(i as int) =~= es);
        Ok(w.offset())
    }
}

impl Version {
    /// Reads a version list from the bytes behind the header. Bytes behind
    /// the last entry are not looked at.
    pub fn parse_body(buf: &[u8]) -> (r: Result<Version, ReadError>)
        ensures
            match version_body_error(buf@) {
                Some(kind) => r == Err::<Version, ReadError>(
                    ReadError { msg: Self::spec_name(), kind },
                ),
                None => (r matches Ok(v) && v.wf() && v.num_entries == buf@[3] && v@
                    == decoded_entries(buf@) && forall|i: int|
                    v.num_entries <= i < 2 ==> v.entries[i] == decode_entry(0, 0)),
            },
    {
        let mut reader = Reader::new(Self::name(), buf);

        // 3 reserved bytes
        let mut k: usize = 0;
        while k < 3
            invariant
                k <= 3,
                k <= buf@.len(),
                reader.wf(),
                reader.msg() == Self::spec_name(),
                reader.bytes() == buf@,
                reader.pos() == 8 * k,
                forall|j: int| 0 <= j < k ==> buf@[j] == 0,
            decreases 3 - k,
        {
            let reserved = match reader.read_byte() {
                Ok(b) => b,
                Err(e) => {
                    return Err(e);
                },
            };
            if reserved != 0 {
                return Err(ReadError::new(Self::name(), ReadErrorKind::ReservedBytesNotZero));
            }
            k += 1;
        }

        // 1 byte number of version entries
        let num_entries = match reader.read_byte() {
            Ok(b) => b,
            Err(e) => {
                return Err(e);
            },
        };
        if num_entries > MAX_ALLOWED_VERSIONS {
            return Err(ReadError::new(Self::name(), ReadErrorKind::TooManyEntries));
        }
        let mut version = Version::empty();
        version.num_entries = num_entries;

        // Num entries * 2 bytes
        let mut i: usize = 0;
        while i < num_entries as usize
            invariant
                i <= num_entries <= 2,
                num_entries == buf@[3],
                4 <= buf@.len(),
                buf@[0] == 0 && buf@[1] == 0 && buf@[2] == 0,
                4 + 2 * i <= buf@.len(),
                reader.wf(),
                reader.msg() == Self::spec_name(),
                reader.bytes() == buf@,
                reader.pos() == 8 * (4 + 2 * i),
                version.num_entries == num_entries,
                forall|j: int| 0 <= j < i ==> version.entries[j] == decode_entry(
                    buf@[4 + 2 * j],
                    buf@[5 + 2 * j],
                ),
                forall|j: int| i <= j < 2 ==> version.entries[j] == decode_entry(0, 0),
            decreases num_entries - i,
        {
            proof {
                if 4 + 2 * i < buf@.len() {
                    lemma_nibbles(buf@, 4 + 2 * i);
                }
                if 5 + 2 * i < buf@.len() {
                    lemma_nibbles(buf@, 5 + 2 * i);
                }
            }
            let update = match reader.read_bits(4) {
                Ok(b) => b,
                Err(e) => {
                    return Err(e);
                },
            };
            let alpha = match reader.read_bits(4) {
                Ok(b) => b,
                Err(e) => {
                    return Err(e);
                },
            };
            let major = match reader.read_bits(4) {
                Ok(b) => b,
                Err(e) => {
                    return Err(e);
                },
            };
            let minor = match reader.read_bits(4) {
                Ok(b) => b,
                Err(e) => {
                    return Err(e);
                },
            };
            version.entries[i] = VersionEntry { major, minor, update, alpha };
            i += 1;
        }
        assert(version@ =~= decoded_entries(buf@));
        Ok(version)
    }
}

/// Byte `2 * i` and the byte behind it are the two bytes of entry `i`.
pub proof fn lemma_entries_bytes_index(es: Seq<VersionEntry>, i: int)
    requires
        0 <= i < es.len(),
    ensures
        entries_bytes(es).len() == 2 * es.len(),
        entries_bytes(es)[2 * i] == entry_bytes(es[i])[0],
        entries_bytes(es)[2 * i + 1] == entry_bytes(es[i])[1],
{
    lemma_entries_bytes_take(es, i + 1);
    lemma_entries_bytes_take(es.take(i + 1).drop_last(), 0);
    assert(es.take(i + 1).last() == es[i]);
    assert(entries_bytes(es).take(2 * (i + 1))[2 * i] == entries_bytes(es)[2 * i]);
    assert(entries_bytes(es).take(2 * (i + 1))[2 * i + 1] == entries_bytes(es)[2 * i + 1]);
}

/// A version query that was written is read back without error.
pub proof fn lemma_get_version_round_trip(m: GetVersion)
    ensures
        get_version_body_error(m.body()) is None,
{
}

/// A count and as many entries that fit the wire, written as the body of a
/// version list, are read back as the same count and the same entries,
/// whatever bytes follow the body.
pub proof fn lemma_entries_round_trip(es: Seq<VersionEntry>, count: u8, tail: Seq<u8>)
    requires
        es.len() == count,
        count <= MAX_ALLOWED_VERSIONS,
        forall|i: int| 0 <= i < es.len() ==> (#[trigger] es[i]).wf(),
    ensures
        version_body_error(seq![0u8, 0u8, 0u8, count] + entries_bytes(es) + tail) is None,
        decoded_entries(seq![0u8, 0u8, 0u8, count] + entries_bytes(es) + tail) == es,
{
    let b = seq![0u8, 0u8, 0u8, count] + entries_bytes(es) + tail;
    lemma_entries_bytes_take(es, 0);
    assert(b.len() == 4 + 2 * es.len() + tail.len());
    assert forall|i: int| 0 <= i < es.len() implies #[trigger] decoded_entries(b)[i] == es[i] by {
        lemma_entries_bytes_index(es, i);
        let e = es[i];
        assert(e.wf());
        assert(b[4 + 2 * i] == entry_bytes(e)[0]);
        assert(b[5 + 2 * i] == entry_bytes(e)[1]);
    }
    assert(decoded_entries(b) =~= es);
}

/// A well-formed version list that was written is read back as the same
/// count and the same entries, for every count that a list may have and
/// whatever bytes follow the body in the buffer.
pub proof fn lemma_version_round_trip(v: Version, tail: Seq<u8>)
    requires
        v.wf(),
    ensures
        version_body_error(v.body() + tail) is None,
        (v.body() + tail)[3] == v.num_entries,
        decoded_entries(v.body() + tail) == v@,
{
    assert forall|i: int| 0 <= i < v@.len() implies (#[trigger] v@[i]).wf() by {
        assert(v@[i] == v.entries[i]);
    }
    lemma_entries_round_trip(v@, v.num_entries, tail);
}

/// Writing a well-formed version list into a buffer with room for it and
/// reading the buffer back gives a header that matches and the same count
/// and entries.
pub proof fn lemma_version_write_then_parse(v: Version, buf: Seq<u8>)
    requires
        v.wf(),
        buf.len() >= 2 + v.body().len(),
    ensures
        ({
            let out = written(buf, 0, frame(Version::spec_version(), Version::spec_code(), v.body()));
            let rest = out.subrange(2, out.len() as int);
            &&& header_result(Version::spec_name(), Version::spec_version(), Version::spec_code(), out)
                == Ok::<bool, ReadError>(true)
            &&& version_body_error(rest) is None
            &&& rest[3] == v.num_entries
            &&& decoded_entries(rest) == v@
        }),
{
    lemma_frame_written(Version::spec_version(), Version::spec_code(), v.body(), buf);
    lemma_version_round_trip(v, buf.subrange(2 + v.body().len() as int, buf.len() as int));
}

/// A count above the most that a list may carry is refused as
/// `TooManyEntries`, whatever follows it.
pub proof fn lemma_too_many_entries(buf: Seq<u8>)
    requires
        buf.len() >= 4,
        buf[0] == 0 && buf[1] == 0 && buf[2] == 0,
        buf[3] > MAX_ALLOWED_VERSIONS,
    ensures
        version_body_error(buf) == Some(ReadErrorKind::TooManyEntries),
{
}

/// A version list with any of its three reserved bytes set is refused as
/// `ReservedBytesNotZero`, whatever else it holds.
pub proof fn lemma_version_reserved_byte_set(buf: Seq<u8>, i: int)
    requires
        0 <= i < 3,
        i < buf.len(),
        buf[i] != 0,
    ensures
        version_body_error(buf) == Some(ReadErrorKind::ReservedBytesNotZero),
{
}

/// A version query of full length with either reserved byte set is refused
/// as `ReservedBytesNotZero`.
pub proof fn lemma_get_version_reserved_byte_set(buf: Seq<u8>, i: int)
    requires
        buf.len() >= 2,
        0 <= i < 2,
        buf[i] != 0,
    ensures
        get_version_body_error(buf) == Some(ReadErrorKind::ReservedBytesNotZero),
{
}

} // verus!
