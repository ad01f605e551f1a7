use vstd::prelude::*;
use vstd::bytes::{
    lemma_auto_spec_u64_to_from_le_bytes, spec_u64_from_le_bytes, spec_u64_to_le_bytes,
    u64_from_le_bytes, u64_to_le_bytes,
};
use vstd::utf8::{
    decode_utf8, encode_utf8, encode_utf8_decode_utf8, encode_utf8_valid_utf8, valid_utf8,
};
use vstd::slice::{slice_subrange, slice_to_vec};
use crate::errors::JournalError;
use crate::task::{Task, TaskView};

verus! {

/// The mathematical values of a sequence of entries.
pub open spec fn views(s: Seq<Task>) -> Seq<TaskView> {
    s.map_values(|t: Task| t@)
}

/// An entry can be persisted when the byte length of its text fits in the
/// record's 64-bit length prefix. Every entry held in a real `String`
/// satisfies this.
pub open spec fn task_encodable(t: TaskView) -> bool {
    encode_utf8(t.text).len() <= u64::MAX
}

pub open spec fn all_encodable(s: Seq<TaskView>) -> bool {
    forall|i: int| 0 <= i < s.len() ==> #[trigger] task_encodable(s[i])
}

/// One persisted record: the UTF-8 byte length of the text as eight
/// little-endian bytes, the text's UTF-8 bytes, then the creation time
/// as eight little-endian bytes.
pub open spec fn spec_encode_task(t: TaskView) -> Seq<u8> {
    spec_u64_to_le_bytes(encode_utf8(t.text).len() as u64) + encode_utf8(t.text)
        + spec_u64_to_le_bytes(t.created_at)
}

/// The persisted form of a whole journal: its records, one after the
/// other. The empty journal is the empty byte sequence.
pub open spec fn spec_encode(tasks: Seq<TaskView>) -> Seq<u8>
    decreases tasks.len(),
{
    if tasks.len() == 0 {
        Seq::<u8>::empty()
    } else {
        spec_encode_task(tasks[0]) + spec_encode(tasks.drop_first())
    }
}

/// What a byte sequence means as a journal: `Some` of the entry sequence
/// when the bytes are a well-formed chain of records, `None` otherwise.
/// Zero bytes mean the empty journal.
pub open spec fn spec_decode(bytes: Seq<u8>) -> Option<Seq<TaskView>>
    decreases bytes.len(),
{
    if bytes.len() == 0 {
        Some(Seq::<TaskView>::empty())
    } else if bytes.len() < 8 {
        None
    } else {
        let n = spec_u64_from_le_bytes(bytes.subrange(0, 8)) as int;
        if bytes.len() < 16 + n {
            None
        } else if !valid_utf8(bytes.subrange(8, 8 + n)) {
            None
        } else {
            let first = TaskView {
                text: decode_utf8(bytes.subrange(8, 8 + n)),
                created_at: spec_u64_from_le_bytes(bytes.subrange(8 + n, 16 + n)),
            };
            match spec_decode(bytes.skip(16 + n)) {
                Some(rest) => Some(seq![first] + rest),
                None => None,
            }
        }
    }
}

/// Encoding one more entry at the end extends the bytes by that entry's
/// record and touches nothing before it.
pub proof fn lemma_encode_snoc(s: Seq<TaskView>, t: TaskView)
    ensures
        spec_encode(s.push(t)) == spec_encode(s) + spec_encode_task(t),
    decreases s.len(),
{
    assert(spec_encode(s.push(t)) == spec_encode_task(s.push(t)[0]) + spec_encode(
        s.push(t).drop_first(),
    ));
    if s.len() == 0 {
        assert(s.push(t)[0] == t);
        assert(s.push(t).drop_first() =~= Seq::<TaskView>::empty());
        assert(spec_encode(s.push(t).drop_first()) == Seq::<u8>::empty());
        assert(spec_encode(s) == Seq::<u8>::empty());
        assert(spec_encode_task(t) + Seq::<u8>::empty() =~= spec_encode_task(t));
        assert(Seq::<u8>::empty() + spec_encode_task(t) =~= spec_encode_task(t));
    } else {
        assert(s.push(t)[0] == s[0]);
        assert(s.push(t).drop_first() =~= s.drop_first().push(t));
        lemma_encode_snoc(s.drop_first(), t);
        assert(spec_encode(s) == spec_encode_task(s[0]) + spec_encode(s.drop_first()));
        assert((spec_encode_task(s[0]) + spec_encode(s.drop_first())) + spec_encode_task(t) =~= (
        spec_encode_task(s[0]) + (spec_encode(s.drop_first()) + spec_encode_task(t))));
    }
}

/// Round trip: decoding the encoding of any sequence of persistable
/// entries gives back exactly that sequence, text and timestamp alike.
pub proof fn lemma_round_trip(tasks: Seq<TaskView>)
    requires
        all_encodable(tasks),
    ensures
        spec_decode(spec_encode(tasks)) == Some(tasks),
    decreases tasks.len(),
{
    lemma_auto_spec_u64_to_from_le_bytes();
    if tasks.len() == 0 {
        assert(tasks =~= Seq::<TaskView>::empty());
    } else {
        let t = tasks[0];
        let tb = encode_utf8(t.text);
        let n = tb.len() as int;
        let rest = spec_encode(tasks.drop_first());
        let b = spec_encode(tasks);
        assert(task_encodable(tasks[0]));
        assert((tb.len() as u64) as int == n);
        assert(spec_u64_to_le_bytes(tb.len() as u64).len() == 8);
        assert(b == spec_encode_task(t) + rest);
        assert(b.len() == 16 + n + rest.len());
        assert(b.subrange(0, 8) =~= spec_u64_to_le_bytes(tb.len() as u64));
        assert(spec_u64_from_le_bytes(b.subrange(0, 8)) as int == n);
        assert(b.subrange(8, 8 + n) =~= tb);
        encode_utf8_valid_utf8(t.text);
        encode_utf8_decode_utf8(t.text);
        assert(valid_utf8(b.subrange(8, 8 + n)));
        assert(decode_utf8(b.subrange(8, 8 + n)) == t.text);
        assert(b.subrange(8 + n, 16 + n) =~= spec_u64_to_le_bytes(t.created_at));
        assert(spec_u64_from_le_bytes(b.subrange(8 + n, 16 + n)) == t.created_at);
        assert(b.skip(16 + n) =~= rest);
        assert forall|i: int| 0 <= i < tasks.drop_first().len() implies #[trigger] task_encodable(
            tasks.drop_first()[i],
        ) by {
            assert(tasks.drop_first()[i] == tasks[i + 1]);
        }
        lemma_round_trip(tasks.drop_first());
        let first = TaskView {
            text: decode_utf8(b.subrange(8, 8 + n)),
            created_at: spec_u64_from_le_bytes(b.subrange(8 + n, 16 + n)),
        };
        assert(first == t);
        assert(seq![first] + tasks.drop_first() =~= tasks);
    }
}

/// Adding an entry is append-only and growing: the bytes of the journal
/// with one more entry at the end decode to a sequence one longer, whose
/// last element is the new entry and whose other elements are the old
/// ones, unchanged and in place.
pub proof fn lemma_add_appends(s: Seq<TaskView>, t: TaskView)
    requires
        all_encodable(s),
        task_encodable(t),
    ensures
        ({
            let after = spec_decode(spec_encode(s.push(t)));
            &&& after is Some
            &&& after->Some_0.len() == s.len() + 1
            &&& after->Some_0.last() == t
            &&& forall|i: int| 0 <= i < s.len() ==> after->Some_0[i] == s[i]
        }),
{
    assert forall|i: int| 0 <= i < s.push(t).len() implies #[trigger] task_encodable(
        s.push(t)[i],
    ) by {
        if i < s.len() {
            assert(s.push(t)[i] == s[i]);
            assert(task_encodable(s[i]));
        } else {
            assert(s.push(t)[i] == t);
        }
    }
    lemma_round_trip(s.push(t));
}

/// Serializes the whole journal, every record in order.
pub fn encode_tasks(tasks: &Vec<Task>) -> (r: Vec<u8>)
    ensures
        r@ == spec_encode(views(tasks@)),
{
    let mut out: Vec<u8> = Vec::new();
    let mut i: usize = 0;
    proof {
        assert(views(tasks@).take(0) =~= Seq::<TaskView>::empty());
    }
    while i < tasks.len()
        invariant
            i <= tasks.len(),
            out@ == spec_encode(views(tasks@).take(i as int)),
        decreases tasks@.len() - i,
    {
        let t = &tasks[i];
        let tb: &[u8] = t.text.as_str().as_bytes();
        let mut lenb = u64_to_le_bytes(tb.len() as u64);
        out.append(&mut lenb);
        out.extend_from_slice(tb);
        let mut tsb = u64_to_le_bytes(t.created_at);
        out.append(&mut tsb);
        proof {
            assert(tb@ == encode_utf8(t@.text));
            assert((tb@.len() as u64) == (encode_utf8(t@.text).len() as u64));
            assert(out@ =~= spec_encode(views(tasks@).take(i as int)) + spec_encode_task(t@));
            lemma_encode_snoc(views(tasks@).take(i as int), t@);
            assert(views(tasks@).take(i as int).push(t@) =~= views(tasks@).take(i + 1));
        }
        i = i + 1;
    }
    proof {
        assert(views(tasks@).take(tasks@.len() as int) =~= views(tasks@));
    }
    out
}

/// Relies on `String::from_utf8`: it returns the string holding exactly
/// the given bytes when they are valid UTF-8, and an error otherwise.
#[verifier::external_body]
fn string_from_utf8(v: Vec<u8>) -> (r: Option<String>)
    ensures
        match r {
            Some(s) => encode_utf8(s@) == v@,
            None => !valid_utf8(v@),
        },
{
    String::from_utf8(v).ok()
}

/// `spec_decode` of a tail, prefixed with the entries already decoded:
/// the shape of `collect_tasks`'s loop invariant.
pub open spec fn prefixed(acc: Seq<TaskView>, rest: Option<Seq<TaskView>>) -> Option<
    Seq<TaskView>,
> {
    match rest {
        Some(r) => Some(acc + r),
        None => None,
    }
}

/// Deserializes journal bytes into the entry sequence they encode.
/// Zero bytes give the empty journal; any malformed content is refused
/// whole, with nothing salvaged.
pub fn collect_tasks(bytes: &Vec<u8>) -> (r: Result<Vec<Task>, JournalError>)
    ensures
        match r {
            Ok(tasks) => spec_decode(bytes@) == Some(views(tasks@)),
            Err(e) => e == JournalError::InvalidFormat && spec_decode(bytes@) is None,
        },
        bytes@.len() == 0 ==> r is Ok && r->Ok_0@.len() == 0,
{
    let mut tasks: Vec<Task> = Vec::new();
    let mut idx: usize = 0;
    proof {
        assert(bytes@.skip(0) =~= bytes@);
        assert(views(tasks@) =~= Seq::<TaskView>::empty());
        assert(spec_decode(bytes@) == prefixed(views(tasks@), spec_decode(bytes@.skip(0))));
    }
    while idx < bytes.len()
        invariant
            idx <= bytes.len(),
            spec_decode(bytes@) == prefixed(views(tasks@), spec_decode(bytes@.skip(idx as int))),
        decreases bytes@.len() - idx,
    {
        let ghost tail = bytes@.skip(idx as int);
        proof {
            assert(tail.len() == bytes@.len() - idx);
        }
        if bytes.len() - idx < 16 {
            proof {
                if tail.len() >= 8 {
                    let n = spec_u64_from_le_bytes(tail.subrange(0, 8)) as int;
                    assert(n >= 0);
                    assert(tail.len() < 16 + n);
                }
                assert(spec_decode(tail) is None);
            }
            return Err(JournalError::InvalidFormat);
        }
        let hd: &[u8] = slice_subrange(bytes.as_slice(), idx, idx + 8);
        proof {
            assert(hd@ =~= tail.subrange(0, 8));
        }
        let n64 = u64_from_le_bytes(hd);
        let avail: usize = bytes.len() - idx - 16;
        if n64 > avail as u64 {
            proof {
                assert(tail.len() < 16 + n64 as int);
                assert(spec_decode(tail) is None);
            }
            return Err(JournalError::InvalidFormat);
        }
        let n: usize = n64 as usize;
        let tb_slice: &[u8] = slice_subrange(bytes.as_slice(), idx + 8, idx + 8 + n);
        proof {
            assert(tb_slice@ =~= tail.subrange(8, 8 + n as int));
        }
        let tb_vec: Vec<u8> = slice_to_vec(tb_slice);
        let text = match string_from_utf8(tb_vec) {
            Some(s) => s,
            None => {
                proof {
                    assert(spec_decode(tail) is None);
                }
                return Err(JournalError::InvalidFormat);
            },
        };
        let cs: &[u8] = slice_subrange(bytes.as_slice(), idx + 8 + n, idx + 16 + n);
        proof {
            assert(cs@ =~= tail.subrange(8 + n as int, 16 + n as int));
        }
        let created = u64_from_le_bytes(cs);
        let ghost old_tasks = tasks@;
        tasks.push(Task { text, created_at: created });
        proof {
            let tb = tail.subrange(8, 8 + n as int);
            encode_utf8_valid_utf8(text@);
            encode_utf8_decode_utf8(text@);
            assert(valid_utf8(tb));
            assert(decode_utf8(tb) == text@);
            let first = TaskView {
                text: decode_utf8(tb),
                created_at: spec_u64_from_le_bytes(tail.subrange(8 + n as int, 16 + n as int)),
            };
            assert(spec_decode(tail) == prefixed(seq![first], spec_decode(tail.skip(16 + n as int))));
            assert(tail.skip(16 + n as int) =~= bytes@.skip(idx + 16 + n));
            assert(views(tasks@) =~= views(old_tasks).push(first));
            assert(views(old_tasks).push(first) =~= views(old_tasks) + seq![first]);
            assert forall|rest: Seq<TaskView>|
                true implies (views(old_tasks) + seq![first]) + rest =~= views(old_tasks) + (
            seq![first] + rest) by {}
            assert(spec_decode(bytes@) == prefixed(
                views(tasks@),
                spec_decode(bytes@.skip(idx + 16 + n)),
            ));
        }
        idx = idx + 16 + n;
    }
    proof {
        assert(bytes@.skip(idx as int) =~= Seq::<u8>::empty());
        assert(spec_decode(bytes@.skip(idx as int)) == Some(Seq::<TaskView>::empty()));
        assert(views(tasks@) + Seq::<TaskView>::empty() =~= views(tasks@));
    }
    Ok(tasks)
}

} // verus!
