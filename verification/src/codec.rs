//! The on-disk snapshot layout and its codec.
//!
//! A snapshot is a count-prefixed list of task records. Every integer is
//! eight little-endian bytes; each record is the byte length of its title,
//! the title in UTF-8, and its creation instant:
//!
//! `[count] ([title_len] [title bytes] [time_created])*`
//!
//! `decode` inverts `encode` exactly: see `lemma_snapshot_round_trip`.

use vstd::prelude::*;
use vstd::utf8::decode_utf8;
use vstd::utf8::encode_utf8;
use vstd::utf8::encode_utf8_decode_utf8;
use vstd::utf8::encode_utf8_valid_utf8;
use vstd::utf8::valid_utf8;
use crate::store::Task;
use crate::store::TaskModel;

verus! {

/// Why a snapshot failed to parse: it ended before a record was complete, a
/// title was not valid UTF-8, or bytes were left over after the last record.
#[derive(Clone, Copy, PartialEq, Eq, Structural, Debug)]
pub enum LoadError {
    Truncated,
    InvalidText,
    TrailingData,
}

/// The eight little-endian bytes of an integer.
pub open spec fn u64_le_bytes(x: u64) -> Seq<u8> {
    seq![
        (x & 0xff) as u8,
        ((x >> 8) & 0xff) as u8,
        ((x >> 16) & 0xff) as u8,
        ((x >> 24) & 0xff) as u8,
        ((x >> 32) & 0xff) as u8,
        ((x >> 40) & 0xff) as u8,
        ((x >> 48) & 0xff) as u8,
        ((x >> 56) & 0xff) as u8,
    ]
}

/// The integer eight little-endian bytes hold.
pub open spec fn u64_from_le(b: Seq<u8>) -> u64
    recommends
        b.len() == 8,
{
    ((b[0] as u64) | ((b[1] as u64) << 8) | ((b[2] as u64) << 16) | ((b[3] as u64) << 24) | (
    (b[4] as u64) << 32) | ((b[5] as u64) << 40) | ((b[6] as u64) << 48) | ((b[7] as u64) << 56))
}

pub proof fn lemma_u64_le_round_trip(x: u64)
    ensures
        u64_from_le(u64_le_bytes(x)) == x,
{
    assert((((x & 0xff) as u8) as u64) | (((((x >> 8) & 0xff) as u8) as u64) << 8) | (((((x >> 16)
        & 0xff) as u8) as u64) << 16) | (((((x >> 24) & 0xff) as u8) as u64) << 24) | (((((x >> 32)
        & 0xff) as u8) as u64) << 32) | (((((x >> 40) & 0xff) as u8) as u64) << 40) | (((((x >> 48)
        & 0xff) as u8) as u64) << 48) | (((((x >> 56) & 0xff) as u8) as u64) << 56) == x)
        by (bit_vector);
}

/// The bytes of one task record.
pub open spec fn enc_task(t: TaskModel) -> Seq<u8> {
    u64_le_bytes(encode_utf8(t.title).len() as u64) + encode_utf8(t.title) + u64_le_bytes(
        t.time_created,
    )
}

/// The concatenated records of a task list, in order.
pub open spec fn enc_tasks(ts: Seq<TaskModel>) -> Seq<u8>
    decreases ts.len(),
{
    if ts.len() == 0 {
        Seq::empty()
    } else {
        enc_task(ts.first()) + enc_tasks(ts.drop_first())
    }
}

/// The whole snapshot: the task count, then the records.
pub open spec fn spec_encode(ts: Seq<TaskModel>) -> Seq<u8> {
    u64_le_bytes(ts.len() as u64) + enc_tasks(ts)
}

/// A task list is encodable when its count and each title's UTF-8 length fit
/// the eight-byte fields. Any list held in memory satisfies this.
pub open spec fn encodable(ts: Seq<TaskModel>) -> bool {
    &&& ts.len() < 0x1_0000_0000_0000_0000
    &&& forall|k: int|
        0 <= k < ts.len() ==> (#[trigger] encode_utf8(ts[k].title)).len()
            < 0x1_0000_0000_0000_0000
}

/// Parse `n` task records out of `b`, requiring that they use `b` exactly.
pub open spec fn dec_tasks(b: Seq<u8>, n: nat) -> Result<Seq<TaskModel>, LoadError>
    decreases n,
{
    if n == 0 {
        if b.len() == 0 {
            Ok(Seq::empty())
        } else {
            Err(LoadError::TrailingData)
        }
    } else if b.len() < 8 {
        Err(LoadError::Truncated)
    } else {
        let tl = u64_from_le(b.take(8)) as int;
        let rest = b.skip(8);
        if rest.len() < tl + 8 {
            Err(LoadError::Truncated)
        } else if !valid_utf8(rest.take(tl)) {
            Err(LoadError::InvalidText)
        } else {
            let title = decode_utf8(rest.take(tl));
            let time = u64_from_le(rest.subrange(tl, tl + 8));
            match dec_tasks(rest.skip(tl + 8), (n - 1) as nat) {
                Ok(ts) => Ok(seq![TaskModel { title, time_created: time }] + ts),
                Err(e) => Err(e),
            }
        }
    }
}

/// Parse a whole snapshot.
pub open spec fn spec_decode(b: Seq<u8>) -> Result<Seq<TaskModel>, LoadError> {
    if b.len() < 8 {
        Err(LoadError::Truncated)
    } else {
        dec_tasks(b.skip(8), u64_from_le(b.take(8)) as nat)
    }
}

#[verifier::rlimit(100)]
proof fn lemma_dec_enc_tasks(ts: Seq<TaskModel>)
    requires
        forall|k: int|
            0 <= k < ts.len() ==> (#[trigger] encode_utf8(ts[k].title)).len()
                < 0x1_0000_0000_0000_0000,
    ensures
        dec_tasks(enc_tasks(ts), ts.len() as nat) == Result::<Seq<TaskModel>, LoadError>::Ok(ts),
    decreases ts.len(),
{
    if ts.len() == 0 {
        assert(enc_tasks(ts).len() == 0);
        assert(ts =~= Seq::<TaskModel>::empty());
        assert(dec_tasks(enc_tasks(ts), 0) == Result::<Seq<TaskModel>, LoadError>::Ok(
            Seq::<TaskModel>::empty(),
        ));
    } else {
        let t = ts.first();
        let tb = encode_utf8(t.title);
        assert(encode_utf8(ts[0].title).len() < 0x1_0000_0000_0000_0000);
        encode_utf8_valid_utf8(t.title);
        encode_utf8_decode_utf8(t.title);
        lemma_u64_le_round_trip(tb.len() as u64);
        lemma_u64_le_round_trip(t.time_created);
        let b = enc_tasks(ts);
        let tail = enc_tasks(ts.drop_first());
        assert(b == enc_task(t) + tail);
        assert(b.take(8) =~= u64_le_bytes(tb.len() as u64));
        let tl = u64_from_le(b.take(8)) as int;
        assert(tl == tb.len());
        let rest = b.skip(8);
        assert(rest =~= tb + u64_le_bytes(t.time_created) + tail);
        assert(rest.len() >= tl + 8);
        assert(rest.take(tl) =~= tb);
        assert(rest.subrange(tl, tl + 8) =~= u64_le_bytes(t.time_created));
        assert(rest.skip(tl + 8) =~= tail);
        assert(forall|k: int|
            0 <= k < ts.drop_first().len() ==> (#[trigger] encode_utf8(
                ts.drop_first()[k].title,
            )).len() < 0x1_0000_0000_0000_0000);
        lemma_dec_enc_tasks(ts.drop_first());
        assert(dec_tasks(tail, ts.drop_first().len() as nat) == Result::<
            Seq<TaskModel>,
            LoadError,
        >::Ok(ts.drop_first()));
        assert(dec_tasks(rest.skip(tl + 8), (ts.len() - 1) as nat) == Result::<
            Seq<TaskModel>,
            LoadError,
        >::Ok(ts.drop_first()));
        assert(decode_utf8(rest.take(tl)) == t.title);
        assert(u64_from_le(rest.subrange(tl, tl + 8)) == t.time_created);
        assert(TaskModel { title: decode_utf8(rest.take(tl)), time_created: u64_from_le(
            rest.subrange(tl, tl + 8),
        ) } == t);
        assert(dec_tasks(b, ts.len() as nat) == Result::<Seq<TaskModel>, LoadError>::Ok(
            seq![t] + ts.drop_first(),
        ));
        assert(seq![t] + ts.drop_first() =~= ts);
    }
}

/// Persistence round trip: decoding an encoded snapshot yields the original
/// task list — same titles, same creation instants — for any encodable list.
pub proof fn lemma_snapshot_round_trip(ts: Seq<TaskModel>)
    requires
        encodable(ts),
    ensures
        spec_decode(spec_encode(ts)) == Result::<Seq<TaskModel>, LoadError>::Ok(ts),
{
    let b = spec_encode(ts);
    lemma_u64_le_round_trip(ts.len() as u64);
    assert(b.take(8) =~= u64_le_bytes(ts.len() as u64));
    assert(b.skip(8) =~= enc_tasks(ts));
    lemma_dec_enc_tasks(ts);
}

/// Appending a task appends its record bytes.
proof fn lemma_enc_tasks_push(ts: Seq<TaskModel>, t: TaskModel)
    ensures
        enc_tasks(ts.push(t)) == enc_tasks(ts) + enc_task(t),
    decreases ts.len(),
{
    let p = ts.push(t);
    assert(enc_tasks(p) == enc_task(p.first()) + enc_tasks(p.drop_first()));
    if ts.len() == 0 {
        assert(p.first() == t);
        assert(p.drop_first() =~= Seq::<TaskModel>::empty());
        assert(enc_tasks(Seq::<TaskModel>::empty()) == Seq::<u8>::empty());
        assert(enc_tasks(p) =~= enc_tasks(ts) + enc_task(t));
    } else {
        assert(p.first() == ts.first());
        assert(p.drop_first() =~= ts.drop_first().push(t));
        lemma_enc_tasks_push(ts.drop_first(), t);
        assert(enc_tasks(ts) == enc_task(ts.first()) + enc_tasks(ts.drop_first()));
        assert(enc_tasks(p) =~= enc_tasks(ts) + enc_task(t));
    }
}

fn push_u64_le(out: &mut Vec<u8>, x: u64)
    ensures
        final(out)@ == old(out)@ + u64_le_bytes(x),
{
    proof {
        assert((x & 0xff) < 256 && ((x >> 8) & 0xff) < 256 && ((x >> 16) & 0xff) < 256 && ((x
            >> 24) & 0xff) < 256 && ((x >> 32) & 0xff) < 256 && ((x >> 40) & 0xff) < 256 && ((x
            >> 48) & 0xff) < 256 && ((x >> 56) & 0xff) < 256) by (bit_vector);
    }
    out.push((x & 0xff) as u8);
    out.push(((x >> 8) & 0xff) as u8);
    out.push(((x >> 16) & 0xff) as u8);
    out.push(((x >> 24) & 0xff) as u8);
    out.push(((x >> 32) & 0xff) as u8);
    out.push(((x >> 40) & 0xff) as u8);
    out.push(((x >> 48) & 0xff) as u8);
    out.push(((x >> 56) & 0xff) as u8);
    proof {
        assert(out@ =~= old(out)@ + u64_le_bytes(x));
    }
}

fn read_u64_le(b: &Vec<u8>, off: usize) -> (x: u64)
    requires
        off + 8 <= b@.len(),
    ensures
        x == u64_from_le(b@.subrange(off as int, off as int + 8)),
{
    // bind the length so the index arithmetic is known to fit a usize
    let _blen: usize = b.len();
    let x = (b[off] as u64) | ((b[off + 1] as u64) << 8u64) | ((b[off + 2] as u64) << 16u64) | ((b[
        off + 3] as u64) << 24u64) | ((b[off + 4] as u64) << 32u64) | ((b[off + 5] as u64)
        << 40u64) | ((b[off + 6] as u64) << 48u64) | ((b[off + 7] as u64) << 56u64);
    proof {
        let s = b@.subrange(off as int, off as int + 8);
        assert(s[0] == b@[off as int] && s[1] == b@[off as int + 1] && s[2] == b@[off as int + 2]
            && s[3] == b@[off as int + 3] && s[4] == b@[off as int + 4] && s[5] == b@[off as int
            + 5] && s[6] == b@[off as int + 6] && s[7] == b@[off as int + 7]);
    }
    x
}

fn copy_range(b: &Vec<u8>, start: usize, len: usize) -> (r: Vec<u8>)
    requires
        start + len <= b@.len(),
    ensures
        r@ == b@.subrange(start as int, start as int + len as int),
{
    // bind the length so the index arithmetic is known to fit a usize
    let _blen: usize = b.len();
    let mut r: Vec<u8> = Vec::new();
    let mut i: usize = 0;
    while i < len
        invariant
            i <= len,
            start + len <= b@.len(),
            b@.len() <= usize::MAX,
            r@ == b@.subrange(start as int, start as int + i as int),
        decreases len - i,
    {
        r.push(b[start + i]);
        proof {
            assert(r@ =~= b@.subrange(start as int, start as int + i as int + 1));
        }
        i += 1;
    }
    r
}

/// Relies on `String::from_utf8`: succeeds exactly on valid UTF-8, and the
/// returned string holds exactly the given bytes.
#[verifier::external_body]
fn string_from_utf8(bytes: Vec<u8>) -> (r: Option<String>)
    ensures
        r is Some <==> valid_utf8(bytes@),
        r matches Some(s) ==> encode_utf8(s@) == bytes@,
{
    String::from_utf8(bytes).ok()
}

/// Encode a task list as snapshot bytes.
pub fn encode(tasks: &Vec<Task>) -> (r: Vec<u8>)
    ensures
        r@ == spec_encode(tasks@.map_values(|t: Task| t@)),
{
    let ghost ms = tasks@.map_values(|t: Task| t@);
    let mut out: Vec<u8> = Vec::new();
    push_u64_le(&mut out, tasks.len() as u64);
    let mut k: usize = 0;
    proof {
        assert(ms.take(0) =~= Seq::<TaskModel>::empty());
    }
    while k < tasks.len()
        invariant
            k <= tasks.len(),
            ms == tasks@.map_values(|t: Task| t@),
            out@ == u64_le_bytes(ms.len() as u64) + enc_tasks(ms.take(k as int)),
        decreases tasks.len() - k,
    {
        let t = &tasks[k];
        let bytes: &[u8] = t.title.as_str().as_bytes();
        push_u64_le(&mut out, bytes.len() as u64);
        out.extend_from_slice(bytes);
        push_u64_le(&mut out, t.time_created);
        proof {
            assert(ms[k as int] == t@);
            lemma_enc_tasks_push(ms.take(k as int), ms[k as int]);
            assert(ms.take(k as int).push(ms[k as int]) =~= ms.take(k as int + 1));
            assert(out@ =~= u64_le_bytes(ms.len() as u64) + enc_tasks(ms.take(k as int + 1)));
        }
        k += 1;
    }
    proof {
        assert(ms.take(ms.len() as int) =~= ms);
    }
    out
}

/// The models of a decode result, for stating that `decode` matches
/// `spec_decode` exactly.
pub open spec fn decoded_models(r: Result<Vec<Task>, LoadError>) -> Result<
    Seq<TaskModel>,
    LoadError,
> {
    match r {
        Ok(v) => Ok(v@.map_values(|t: Task| t@)),
        Err(e) => Err(e),
    }
}

/// Decode snapshot bytes back into a task list.
pub fn decode(bytes: &Vec<u8>) -> (r: Result<Vec<Task>, LoadError>)
    ensures
        decoded_models(r) == spec_decode(bytes@),
{
    if bytes.len() < 8 {
        return Err(LoadError::Truncated);
    }
    let n = read_u64_le(bytes, 0);
    proof {
        assert(bytes@.subrange(0, 8) =~= bytes@.take(8));
    }
    let mut out: Vec<Task> = Vec::new();
    let mut off: usize = 8;
    let mut k: u64 = 0;
    proof {
        let d = dec_tasks(bytes@.skip(8), n as nat);
        if d is Ok {
            assert(out@.map_values(|t: Task| t@) + d->Ok_0 =~= d->Ok_0);
        }
    }
    while k < n
        invariant
            8 <= off <= bytes@.len(),
            k <= n,
            dec_tasks(bytes@.skip(8), n as nat) == (match dec_tasks(
                bytes@.skip(off as int),
                (n - k) as nat,
            ) {
                Ok(ts) => Result::<Seq<TaskModel>, LoadError>::Ok(
                    out@.map_values(|t: Task| t@) + ts,
                ),
                Err(e) => Err(e),
            }),
            spec_decode(bytes@) == dec_tasks(bytes@.skip(8), n as nat),
        decreases n - k,
    {
        let ghost cur = bytes@.skip(off as int);
        if bytes.len() - off < 8 {
            return Err(LoadError::Truncated);
        }
        let tl64 = read_u64_le(bytes, off);
        proof {
            assert(cur.take(8) =~= bytes@.subrange(off as int, off as int + 8));
        }
        let remaining = bytes.len() - off - 8;
        let ghost rest = cur.skip(8);
        proof {
            assert(rest.len() == remaining);
        }
        if (remaining as u64) < tl64 {
            return Err(LoadError::Truncated);
        }
        let tl = tl64 as usize;
        if remaining - tl < 8 {
            return Err(LoadError::Truncated);
        }
        let title_bytes = copy_range(bytes, off + 8, tl);
        proof {
            assert(rest.take(tl as int) =~= bytes@.subrange(
                off as int + 8,
                off as int + 8 + tl as int,
            ));
        }
        let title = match string_from_utf8(title_bytes) {
            Some(s) => s,
            None => {
                return Err(LoadError::InvalidText);
            },
        };
        proof {
            encode_utf8_decode_utf8(title@);
        }
        let time = read_u64_le(bytes, off + 8 + tl);
        proof {
            assert(rest.subrange(tl as int, tl as int + 8) =~= bytes@.subrange(
                off as int + 8 + tl as int,
                off as int + 8 + tl as int + 8,
            ));
        }
        let ghost m = TaskModel { title: title@, time_created: time };
        let ghost out0 = out@.map_values(|t: Task| t@);
        out.push(Task { title, time_created: time });
        proof {
            let next = bytes@.skip(off as int + 8 + tl as int + 8);
            assert(rest.skip(tl as int + 8) =~= next);
            assert(dec_tasks(cur, (n - k) as nat) == (match dec_tasks(next, (n - k - 1) as nat) {
                Ok(ts) => Result::<Seq<TaskModel>, LoadError>::Ok(seq![m] + ts),
                Err(e) => Err(e),
            }));
            assert(out@.map_values(|t: Task| t@) =~= out0.push(m));
            let d = dec_tasks(next, (n - k - 1) as nat);
            if d is Ok {
                assert(out0 + (seq![m] + d->Ok_0) =~= out0.push(m) + d->Ok_0);
            }
        }
        off = off + 8 + tl + 8;
        k = k + 1;
    }
    if off != bytes.len() {
        proof {
            assert(bytes@.skip(off as int).len() > 0);
        }
        return Err(LoadError::TrailingData);
    }
    proof {
        assert(bytes@.skip(off as int).len() == 0);
        let d = dec_tasks(bytes@.skip(off as int), 0);
        assert(d == Result::<Seq<TaskModel>, LoadError>::Ok(Seq::<TaskModel>::empty()));
        assert(out@.map_values(|t: Task| t@) + Seq::<TaskModel>::empty() =~= out@.map_values(
            |t: Task| t@,
        ));
    }
    Ok(out)
}

} // verus!
