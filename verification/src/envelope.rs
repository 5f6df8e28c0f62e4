//! The envelope of a snapshot: its prologue, the channel count and the records of
//! that many channels.
use vstd::prelude::*;
use crate::channel::{
    decode_channel, record_at, record_bytes, ChannelRecord, ChannelRecordView, ChannelTypeConfig,
};
use crate::error::{DecodeError, Error};
use crate::wire::{
    array_at, put_slice, put_u32, put_u64, put_u8, u32_at, u32_bytes, u64_at, u64_bytes, u8_at,
    u8_bytes, views_of, Reader,
};

verus! {

/// The oldest version of the format that this library reads.
pub const MIN_SUPPORTED_VERSION: u8 = 1;

/// The newest version of the format that this library reads.
pub const MAX_SUPPORTED_VERSION: u8 = 1;

/// The prologue of a snapshot.
#[derive(Clone, Copy, Debug, PartialEq, Eq)]
pub struct SnapshotHeader {
    /// The version of the format in which the snapshot was written.
    pub version: u8,
    /// The oldest version whose readers can read the snapshot.
    pub min_version: u8,
    pub chain_hash: [u8; 32],
    pub best_block_height: u32,
    pub best_block_hash: [u8; 32],
}

/// The mathematical model of a prologue.
pub struct SnapshotHeaderView {
    pub version: u8,
    pub min_version: u8,
    pub chain_hash: Seq<u8>,
    pub best_block_height: u32,
    pub best_block_hash: Seq<u8>,
}

impl View for SnapshotHeader {
    type V = SnapshotHeaderView;

    open spec fn view(&self) -> SnapshotHeaderView {
        SnapshotHeaderView {
            version: self.version,
            min_version: self.min_version,
            chain_hash: self.chain_hash@,
            best_block_height: self.best_block_height,
            best_block_hash: self.best_block_hash@,
        }
    }
}

/// A decoded snapshot: its prologue and the records of its channels, in their order.
#[derive(Clone, Debug, PartialEq, Eq)]
pub struct Snapshot {
    pub header: SnapshotHeader,
    pub channels: Vec<ChannelRecord>,
}

/// The mathematical model of a snapshot.
pub struct SnapshotView {
    pub header: SnapshotHeaderView,
    pub channels: Seq<ChannelRecordView>,
}

impl View for Snapshot {
    type V = SnapshotView;

    open spec fn view(&self) -> SnapshotView {
        SnapshotView { header: self.header@, channels: views_of(self.channels@) }
    }
}

/// A snapshot can be read where it is not older than the oldest supported version
/// and does not ask for a reader newer than the newest.
pub open spec fn version_supported(version: u8, min_version: u8) -> bool {
    MIN_SUPPORTED_VERSION <= version && min_version <= MAX_SUPPORTED_VERSION
}

/// The error of a snapshot whose prologue or channel count could not be read.
pub open spec fn prologue_error(e: DecodeError) -> Error {
    match e {
        DecodeError::InvalidLength => Error::InvalidLength,
        _ => Error::UnexpectedEndOfData,
    }
}

/// The prologue at the start of `s`: the two version bytes, which are checked as
/// soon as they are read, the chain hash, and the height and hash of the last block.
pub open spec fn header_at(s: Seq<u8>) -> Result<(SnapshotHeaderView, int), Error> {
    match u8_at(s, 0) {
        Err(e) => Err(prologue_error(e)),
        Ok((version, at1)) => match u8_at(s, at1) {
            Err(e) => Err(prologue_error(e)),
            Ok((min_version, at2)) => if !version_supported(version, min_version) {
                Err(Error::UnsupportedFormatVersion)
            } else {
                match array_at(s, at2, 32) {
                    Err(e) => Err(prologue_error(e)),
                    Ok((chain_hash, at3)) => match u32_at(s, at3) {
                        Err(e) => Err(prologue_error(e)),
                        Ok((best_block_height, at4)) => match array_at(s, at4, 32) {
                            Err(e) => Err(prologue_error(e)),
                            Ok((best_block_hash, at5)) => Ok(
                                (
                                    SnapshotHeaderView {
                                        version,
                                        min_version,
                                        chain_hash,
                                        best_block_height,
                                        best_block_hash,
                                    },
                                    at5,
                                ),
                            ),
                        },
                    },
                }
            },
        },
    }
}

/// The records of the first `count` channels from `pos` on. The first record that
/// cannot be decoded fails the whole with its index and the cause.
pub open spec fn channels_at(s: Seq<u8>, pos: int, count: nat, config: ChannelTypeConfig) -> Result<
    (Seq<ChannelRecordView>, int),
    Error,
>
    decreases count,
{
    if count == 0 {
        Ok((Seq::empty(), pos))
    } else {
        match channels_at(s, pos, (count - 1) as nat, config) {
            Err(e) => Err(e),
            Ok((vs, p)) => match record_at(s, p, config) {
                Err(cause) => Err(
                    Error::MalformedChannelRecord { index: (count - 1) as u64, cause },
                ),
                Ok((v, q)) => Ok((vs.push(v), q)),
            },
        }
    }
}

/// The snapshot at the start of `s` and the position behind its last channel.
pub open spec fn snapshot_at(s: Seq<u8>, config: ChannelTypeConfig) -> Result<
    (SnapshotView, int),
    Error,
> {
    match header_at(s) {
        Err(e) => Err(e),
        Ok((header, at1)) => match u64_at(s, at1) {
            Err(e) => Err(prologue_error(e)),
            Ok((count, at2)) => match channels_at(s, at2, count as nat, config) {
                Err(e) => Err(e),
                Ok((channels, at3)) => Ok((SnapshotView { header, channels }, at3)),
            },
        },
    }
}

/// The snapshot that `s` holds.
pub open spec fn snapshot_of(s: Seq<u8>, config: ChannelTypeConfig) -> Result<SnapshotView, Error> {
    match snapshot_at(s, config) {
        Err(e) => Err(e),
        Ok((snapshot, _)) => Ok(snapshot),
    }
}

/// The bytes of a prologue.
pub open spec fn header_bytes(h: SnapshotHeaderView) -> Seq<u8> {
    u8_bytes(h.version) + u8_bytes(h.min_version) + h.chain_hash + u32_bytes(h.best_block_height)
        + h.best_block_hash
}

/// The bytes of the records of some channels, one behind the other.
pub open spec fn channels_bytes(vs: Seq<ChannelRecordView>) -> Seq<u8>
    decreases vs.len(),
{
    if vs.len() == 0 {
        Seq::empty()
    } else {
        channels_bytes(vs.drop_last()) + record_bytes(vs.last())
    }
}

/// The bytes of a snapshot.
pub open spec fn snapshot_bytes(v: SnapshotView) -> Seq<u8> {
    header_bytes(v.header) + u64_bytes(v.channels.len() as u64) + channels_bytes(v.channels)
}

/// Once the first `m` channels cannot be decoded, no larger number of them can, and
/// the error stays the same.
pub proof fn lemma_channels_fail(s: Seq<u8>, pos: int, m: nat, n: nat, config: ChannelTypeConfig)
    requires
        m <= n,
        channels_at(s, pos, m, config) is Err,
    ensures
        channels_at(s, pos, n, config) == channels_at(s, pos, m, config),
    decreases n,
{
    if m < n {
        lemma_channels_fail(s, pos, m, (n - 1) as nat, config);
    }
}

fn prologue_error_of(e: DecodeError) -> (res: Error)
    ensures
        res == prologue_error(e),
{
    match e {
        DecodeError::InvalidLength => Error::InvalidLength,
        _ => Error::UnexpectedEndOfData,
    }
}

/// Reads the prologue of a snapshot from its start. The version bytes are checked
/// before anything behind them is read.
fn read_header(r: &mut Reader) -> (res: Result<SnapshotHeader, Error>)
    requires
        old(r).cursor() == 0,
    ensures
        final(r).buffer() == old(r).buffer(),
        match res {
            Ok(h) => header_at(old(r).buffer()) == Ok::<(SnapshotHeaderView, int), Error>(
                (h@, final(r).cursor()),
            ),
            Err(e) => header_at(old(r).buffer()) == Err::<(SnapshotHeaderView, int), Error>(e),
        },
{
    let version = match r.read_u8() {
        Ok(v) => v,
        Err(e) => { return Err(prologue_error_of(e)); },
    };
    let min_version = match r.read_u8() {
        Ok(v) => v,
        Err(e) => { return Err(prologue_error_of(e)); },
    };
    if !(MIN_SUPPORTED_VERSION <= version && min_version <= MAX_SUPPORTED_VERSION) {
        return Err(Error::UnsupportedFormatVersion);
    }
    let chain_hash = match r.read_array::<32>() {
        Ok(v) => v,
        Err(e) => { return Err(prologue_error_of(e)); },
    };
    let best_block_height = match r.read_u32() {
        Ok(v) => v,
        Err(e) => { return Err(prologue_error_of(e)); },
    };
    let best_block_hash = match r.read_array::<32>() {
        Ok(v) => v,
        Err(e) => { return Err(prologue_error_of(e)); },
    };
    Ok(SnapshotHeader { version, min_version, chain_hash, best_block_height, best_block_hash })
}

/// Decodes the records of `count` channels, one behind the other. The first record
/// that cannot be decoded fails the whole with its index and the cause.
#[verifier::rlimit(50)]
pub fn read_channels(r: &mut Reader, count: u64, config: &ChannelTypeConfig) -> (res: Result<
    Vec<ChannelRecord>,
    Error,
>)
    ensures
        final(r).buffer() == old(r).buffer(),
        match res {
            Ok(channels) => channels_at(
                old(r).buffer(),
                old(r).cursor(),
                count as nat,
                *config,
            ) == Ok::<(Seq<ChannelRecordView>, int), Error>(
                (views_of(channels@), final(r).cursor()),
            ),
            Err(e) => channels_at(old(r).buffer(), old(r).cursor(), count as nat, *config) == Err::<
                (Seq<ChannelRecordView>, int),
                Error,
            >(e),
        },
{
    let ghost s = r.buffer();
    let ghost start = r.cursor();
    let mut channels: Vec<ChannelRecord> = Vec::new();
    let mut i: u64 = 0;
    assert(views_of(channels@) =~= Seq::<ChannelRecordView>::empty());
    while i < count
        invariant
            i <= count,
            r.buffer() == s,
            s == old(r).buffer(),
            start == old(r).cursor(),
            channels_at(s, start, i as nat, *config) == Ok::<(Seq<ChannelRecordView>, int), Error>(
                (views_of(channels@), r.cursor()),
            ),
        decreases count - i,
    {
        let ghost before = views_of(channels@);
        let ghost here = r.cursor();
        match decode_channel(r, config) {
            Err(cause) => {
                proof {
                    assert(record_at(s, here, *config) == Err::<
                        (ChannelRecordView, int),
                        DecodeError,
                    >(cause));
                    assert(channels_at(s, start, (i + 1) as nat, *config) == Err::<
                        (Seq<ChannelRecordView>, int),
                        Error,
                    >(Error::MalformedChannelRecord { index: i, cause }));
                    lemma_channels_fail(s, start, (i + 1) as nat, count as nat, *config);
                }
                return Err(Error::MalformedChannelRecord { index: i, cause });
            },
            Ok(record) => {
                channels.push(record);
                proof {
                    assert(views_of(channels@) =~= before.push(record@));
                    assert(record_at(s, here, *config) == Ok::<
                        (ChannelRecordView, int),
                        DecodeError,
                    >((record@, r.cursor())));
                    assert(channels_at(s, start, (i + 1) as nat, *config) == Ok::<
                        (Seq<ChannelRecordView>, int),
                        Error,
                    >((views_of(channels@), r.cursor())));
                }
            },
        }
        i = i + 1;
    }
    Ok(channels)
}

/// Decodes a snapshot: the prologue, the channel count and the records of that
/// many channels. The first record that cannot be decoded fails the whole with its
/// index and the cause; no part of the result is returned then. Bytes behind the
/// last channel are not read.
pub fn parse_snapshot(buf: &[u8], config: &ChannelTypeConfig) -> (res: Result<Snapshot, Error>)
    ensures
        match res {
            Ok(snapshot) => snapshot_of(buf@, *config) == Ok::<SnapshotView, Error>(snapshot@),
            Err(e) => snapshot_of(buf@, *config) == Err::<SnapshotView, Error>(e),
        },
{
    let mut r = Reader::new(buf);
    let header = read_header(&mut r)?;
    let count = match r.read_u64() {
        Ok(v) => v,
        Err(e) => { return Err(prologue_error_of(e)); },
    };
    let channels = read_channels(&mut r, count, config)?;
    Ok(Snapshot { header, channels })
}

impl SnapshotHeader {
    /// Appends the bytes of the prologue.
    pub fn encode(&self, out: &mut Vec<u8>)
        ensures
            final(out)@ == old(out)@ + header_bytes(self@),
    {
        put_u8(out, self.version);
        put_u8(out, self.min_version);
        put_slice(out, self.chain_hash.as_slice());
        put_u32(out, self.best_block_height);
        put_slice(out, self.best_block_hash.as_slice());
        assert(out@ =~= old(out)@ + header_bytes(self@));
    }
}

impl Snapshot {
    /// Appends the bytes of the snapshot.
    pub fn encode(&self, out: &mut Vec<u8>)
        ensures
            final(out)@ == old(out)@ + snapshot_bytes(self@),
    {
        self.header.encode(out);
        put_u64(out, self.channels.len() as u64);
        let ghost base = out@;
        let ghost all = views_of(self.channels@);
        let mut i: usize = 0;
        assert(all.take(0) =~= Seq::<ChannelRecordView>::empty());
        while i < self.channels.len()
            invariant
                i <= self.channels@.len(),
                all == views_of(self.channels@),
                base == old(out)@ + header_bytes(self.header@) + u64_bytes(
                    self.channels@.len() as u64,
                ),
                out@ == base + channels_bytes(all.take(i as int)),
            decreases self.channels@.len() - i,
        {
            self.channels[i].encode(out);
            proof {
                let now = all.take(i + 1);
                assert(now.drop_last() =~= all.take(i as int));
                assert(now.last() == self.channels@[i as int]@);
                assert(out@ =~= base + channels_bytes(now));
            }
            i = i + 1;
        }
        assert(all.take(i as int) =~= all);
        assert(out@ =~= old(out)@ + snapshot_bytes(self@));
    }
}

} // verus!
