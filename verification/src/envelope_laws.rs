//! Laws of the envelope of a snapshot.
use vstd::prelude::*;
use crate::channel::{record_bytes, ChannelRecordView, ChannelTypeConfig};
use crate::channel_laws::{lemma_record_roundtrip, lemma_record_truncated, record_well_formed};
use crate::envelope::{
    channels_at, channels_bytes, header_at, header_bytes, snapshot_at, snapshot_bytes,
    snapshot_of, version_supported, SnapshotHeaderView, SnapshotView,
};
use crate::error::{DecodeError, Error};
use crate::wire::{encoded_at, u32_bytes, u64_at, u64_bytes, u8_bytes};
use crate::wire_laws::{
    lemma_array_roundtrip, lemma_array_truncated, lemma_encoded_split, lemma_encoded_whole,
    lemma_u32_roundtrip, lemma_u32_truncated, lemma_u64_roundtrip, lemma_u64_truncated,
    lemma_u8_roundtrip, lemma_u8_truncated,
};

verus! {

/// The error of a snapshot that stops too early: the data ended in the prologue or
/// the count, or a record could not be decoded because its data ended.
pub open spec fn is_truncation_error(e: Error) -> bool {
    e == Error::UnexpectedEndOfData || (e matches Error::MalformedChannelRecord { cause, .. }
        && cause.is_truncation())
}

/// What makes the view of a prologue one that is read back from its bytes.
pub open spec fn header_well_formed(h: SnapshotHeaderView) -> bool {
    &&& version_supported(h.version, h.min_version)
    &&& h.chain_hash.len() == 32
    &&& h.best_block_hash.len() == 32
}

/// What makes the view of a snapshot one that is read back from its bytes.
pub open spec fn snapshot_well_formed(v: SnapshotView, config: ChannelTypeConfig) -> bool {
    &&& header_well_formed(v.header)
    &&& v.channels.len() <= u64::MAX
    &&& forall|i: int|
        0 <= i < v.channels.len() ==> record_well_formed(#[trigger] v.channels[i], config)
}

/// A snapshot whose version bytes are outside the supported range is refused for
/// that reason, whatever stands behind them.
pub proof fn lemma_unsupported_version(s: Seq<u8>, config: ChannelTypeConfig)
    requires
        s.len() >= 2,
        !version_supported(s[0], s[1]),
    ensures
        snapshot_of(s, config) == Err::<SnapshotView, Error>(Error::UnsupportedFormatVersion),
{
}

/// A well-formed prologue is read back from its bytes.
pub proof fn lemma_header_roundtrip(s: Seq<u8>, h: SnapshotHeaderView)
    requires
        header_well_formed(h),
        encoded_at(s, 0, header_bytes(h)),
    ensures
        header_at(s) == Ok::<(SnapshotHeaderView, int), Error>((h, 70)),
        header_bytes(h).len() == 70,
{
    let a = u8_bytes(h.version);
    let b = u8_bytes(h.min_version);
    let c = h.chain_hash;
    let d = u32_bytes(h.best_block_height);
    let e = h.best_block_hash;
    lemma_encoded_split(s, 0, a + b + c + d, e);
    lemma_encoded_split(s, 0, a + b + c, d);
    lemma_encoded_split(s, 0, a + b, c);
    lemma_encoded_split(s, 0, a, b);
    lemma_u8_roundtrip(s, 0, h.version);
    lemma_u8_roundtrip(s, 1, h.min_version);
    lemma_array_roundtrip(s, 2, c);
    lemma_u32_roundtrip(s, 34, h.best_block_height);
    lemma_array_roundtrip(s, 38, e);
}

/// Well-formed records are read back from their bytes, one after the other.
#[verifier::rlimit(50)]
pub proof fn lemma_channels_roundtrip(
    s: Seq<u8>,
    pos: int,
    vs: Seq<ChannelRecordView>,
    config: ChannelTypeConfig,
)
    requires
        vs.len() <= u64::MAX,
        forall|i: int| 0 <= i < vs.len() ==> record_well_formed(#[trigger] vs[i], config),
        encoded_at(s, pos, channels_bytes(vs)),
    ensures
        channels_at(s, pos, vs.len(), config) == Ok::<(Seq<ChannelRecordView>, int), Error>(
            (vs, pos + channels_bytes(vs).len()),
        ),
    decreases vs.len(),
{
    if vs.len() == 0 {
        assert(vs =~= Seq::<ChannelRecordView>::empty());
    } else {
        let front = vs.drop_last();
        assert(front.len() == vs.len() - 1);
        assert forall|i: int| 0 <= i < front.len() implies record_well_formed(
            #[trigger] front[i],
            config,
        ) by {
            assert(front[i] == vs[i]);
        }
        lemma_encoded_split(s, pos, channels_bytes(front), record_bytes(vs.last()));
        lemma_channels_roundtrip(s, pos, front, config);
        lemma_record_roundtrip(s, pos + channels_bytes(front).len(), vs.last(), config);
        assert(front.push(vs.last()) =~= vs);
        assert(channels_at(s, pos, (vs.len() - 1) as nat, config) == Ok::<
            (Seq<ChannelRecordView>, int),
            Error,
        >((front, pos + channels_bytes(front).len())));
    }
}

/// Decoding the bytes of a well-formed snapshot yields the snapshot, every field of
/// every record as it was.
#[verifier::rlimit(50)]
pub proof fn lemma_decode_encoded_snapshot(v: SnapshotView, config: ChannelTypeConfig)
    requires
        snapshot_well_formed(v, config),
    ensures
        snapshot_at(snapshot_bytes(v), config) == Ok::<(SnapshotView, int), Error>(
            (v, snapshot_bytes(v).len() as int),
        ),
{
    let s = snapshot_bytes(v);
    let a = header_bytes(v.header);
    let b = u64_bytes(v.channels.len() as u64);
    let c = channels_bytes(v.channels);
    let n = v.channels.len() as u64;
    lemma_encoded_whole(s);
    lemma_encoded_split(s, 0, a + b, c);
    lemma_encoded_split(s, 0, a, b);
    lemma_header_roundtrip(s, v.header);
    assert(b.len() == 8);
    lemma_u64_roundtrip(s, 70, n);
    lemma_channels_roundtrip(s, 78, v.channels, config);
    assert(s.len() == 78 + c.len());
    assert(header_at(s) == Ok::<(SnapshotHeaderView, int), Error>((v.header, 70)));
    assert(u64_at(s, 70) == Ok::<(u64, int), DecodeError>((n, 78)));
    assert(channels_at(s, 78, n as nat, config) == Ok::<(Seq<ChannelRecordView>, int), Error>(
        (v.channels, 78 + c.len() as int),
    ));
}

/// A prologue takes 70 bytes; from a shorter prefix of the buffer the decoder reports
/// that the data ended.
pub proof fn lemma_header_truncated(s: Seq<u8>, k: int)
    requires
        0 <= k <= s.len(),
        header_at(s) is Ok,
    ensures
        header_at(s)->Ok_0.1 == 70,
        70 <= s.len(),
        70 <= k ==> header_at(s.take(k)) == header_at(s),
        k < 70 ==> header_at(s.take(k)) == Err::<(SnapshotHeaderView, int), Error>(
            Error::UnexpectedEndOfData,
        ),
{
    lemma_u8_truncated(s, 0, k);
    lemma_u8_truncated(s, 1, k);
    lemma_array_truncated(s, 2, 32, k);
    lemma_u32_truncated(s, 34, k);
    lemma_array_truncated(s, 38, 32, k);
}

/// The records of some channels that were decoded lie inside the buffer. From a
/// prefix of the buffer that holds them all they are decoded again; from a shorter
/// prefix the decoder reports the record at which the data ended.
#[verifier::rlimit(50)]
pub proof fn lemma_channels_truncated(
    s: Seq<u8>,
    pos: int,
    count: nat,
    k: int,
    config: ChannelTypeConfig,
)
    requires
        0 <= pos <= k <= s.len(),
        channels_at(s, pos, count, config) is Ok,
    ensures
        pos + count <= channels_at(s, pos, count, config)->Ok_0.1 <= s.len(),
        channels_at(s, pos, count, config)->Ok_0.1 <= k ==> channels_at(
            s.take(k),
            pos,
            count,
            config,
        ) == channels_at(s, pos, count, config),
        k < channels_at(s, pos, count, config)->Ok_0.1 ==> (channels_at(
            s.take(k),
            pos,
            count,
            config,
        ) matches Err(Error::MalformedChannelRecord { index, cause }) && index < count
            && cause.is_truncation()),
    decreases count,
{
    if count > 0 {
        let prev = channels_at(s, pos, (count - 1) as nat, config);
        lemma_channels_truncated(s, pos, (count - 1) as nat, k, config);
        let p = prev->Ok_0.1;
        lemma_record_truncated(s, p, k, config);
    }
}

/// A snapshot that is cut off at any byte before the end of its last channel yields
/// an error that says so: the data ended, or a record is malformed because its data
/// ended. It never yields a snapshot with fewer channels.
#[verifier::rlimit(50)]
pub proof fn lemma_truncated_snapshot(s: Seq<u8>, k: int, config: ChannelTypeConfig)
    requires
        snapshot_at(s, config) is Ok,
        0 <= k < snapshot_at(s, config)->Ok_0.1,
    ensures
        snapshot_at(s, config)->Ok_0.1 <= s.len(),
        snapshot_of(s.take(k), config) matches Err(e) && is_truncation_error(e),
{
    lemma_header_truncated(s, s.len() as int);
    lemma_u64_truncated(s, 70, s.len() as int);
    let count = u64_at(s, 70)->Ok_0.0;
    lemma_channels_truncated(s, 78, count as nat, s.len() as int, config);
    lemma_header_truncated(s, k);
    lemma_u64_truncated(s, 70, k);
    if 78 <= k {
        lemma_channels_truncated(s, 78, count as nat, k, config);
    }
}

} // verus!
