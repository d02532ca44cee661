//! Parsing the patch message produced by the author's editor.
//!
//! The editor buffer is seeded with the head commit's message followed by a
//! help block; on save the engine splits the buffer at the first blank line
//! into a title and a description, trims both, and deletes every literal
//! occurrence of the help-block text from the description. Note that the
//! deletion is by literal substring match: a description that legitimately
//! contains the help text loses it.

use vstd::prelude::*;

verus! {

/// ASCII whitespace as the trimming rule sees it.
pub open spec fn is_ws(b: u8) -> bool {
    b == 0x20 || b == 0x09 || b == 0x0a || b == 0x0d
}

pub open spec fn trim_front(s: Seq<u8>) -> Seq<u8>
    decreases s.len(),
{
    if s.len() > 0 && is_ws(s[0]) {
        trim_front(s.skip(1))
    } else {
        s
    }
}

pub open spec fn trim_back(s: Seq<u8>) -> Seq<u8>
    decreases s.len(),
{
    if s.len() > 0 && is_ws(s.last()) {
        trim_back(s.drop_last())
    } else {
        s
    }
}

/// The byte string with ASCII whitespace removed from both ends.
pub open spec fn trimmed(s: Seq<u8>) -> Seq<u8> {
    trim_back(trim_front(s))
}

/// `s` with every occurrence of `pat` deleted, scanning left to right.
pub open spec fn remove_all(s: Seq<u8>, pat: Seq<u8>) -> Seq<u8>
    decreases s.len(),
{
    if pat.len() == 0 || s.len() < pat.len() {
        s
    } else if s.take(pat.len() as int) == pat {
        remove_all(s.skip(pat.len() as int), pat)
    } else {
        seq![s[0]] + remove_all(s.skip(1), pat)
    }
}

proof fn lemma_trim_front_skip(s: Seq<u8>, lo: int)
    requires
        0 <= lo <= s.len(),
        forall|j: int| 0 <= j < lo ==> is_ws(#[trigger] s[j]),
        lo < s.len() ==> !is_ws(s[lo]),
    ensures
        trim_front(s) == s.skip(lo),
    decreases lo,
{
    if lo == 0 {
        assert(s.skip(0) =~= s);
    } else {
        assert(is_ws(s[0]));
        lemma_trim_front_skip(s.skip(1), lo - 1);
        assert(s.skip(1).skip(lo - 1) =~= s.skip(lo));
    }
}

proof fn lemma_trim_back_take(s: Seq<u8>, hi: int)
    requires
        0 <= hi <= s.len(),
        forall|j: int| hi <= j < s.len() ==> is_ws(#[trigger] s[j]),
        hi > 0 ==> !is_ws(s[hi - 1]),
    ensures
        trim_back(s) == s.take(hi),
    decreases s.len() - hi,
{
    if hi == s.len() {
        assert(s.take(hi) =~= s);
    } else {
        assert(is_ws(s.last()));
        lemma_trim_back_take(s.drop_last(), hi);
        assert(s.drop_last().take(hi) =~= s.take(hi));
    }
}

/// Removes ASCII whitespace from both ends.
pub fn trim_bytes(s: &Vec<u8>) -> (r: Vec<u8>)
    ensures
        r@ == trimmed(s@),
{
    let n = s.len();
    let mut lo: usize = 0;
    while lo < n && (s[lo] == 0x20 || s[lo] == 0x09 || s[lo] == 0x0a || s[lo] == 0x0d)
        invariant
            n == s@.len(),
            lo <= n,
            forall|j: int| 0 <= j < lo ==> is_ws(#[trigger] s@[j]),
        decreases n - lo,
    {
        lo = lo + 1;
    }
    let mut hi: usize = n;
    while hi > lo && (s[hi - 1] == 0x20 || s[hi - 1] == 0x09 || s[hi - 1] == 0x0a || s[hi - 1]
        == 0x0d)
        invariant
            n == s@.len(),
            lo <= hi <= n,
            forall|j: int| 0 <= j < lo ==> is_ws(#[trigger] s@[j]),
            lo < n ==> !is_ws(s@[lo as int]),
            forall|j: int| hi <= j < n ==> is_ws(#[trigger] s@[j]),
        decreases hi,
    {
        hi = hi - 1;
    }
    proof {
        lemma_trim_front_skip(s@, lo as int);
        if hi == lo {
            lemma_trim_back_take(s@.skip(lo as int), 0);
        } else {
            lemma_trim_back_take(s@.skip(lo as int), hi - lo);
        }
    }
    let mut out: Vec<u8> = Vec::new();
    let mut i: usize = lo;
    while i < hi
        invariant
            n == s@.len(),
            lo <= i <= hi <= n,
            out@ =~= s@.subrange(lo as int, i as int),
        decreases hi - i,
    {
        out.push(s[i]);
        proof {
            assert(out@ =~= s@.subrange(lo as int, i + 1 as int));
        }
        i = i + 1;
    }
    proof {
        assert(s@.skip(lo as int).take(hi - lo as int) =~= s@.subrange(lo as int, hi as int));
    }
    out
}

/// Whether `pat` occurs in `s` starting at `i`.
pub open spec fn occurs_at(s: Seq<u8>, pat: Seq<u8>, i: int) -> bool {
    0 <= i && i + pat.len() <= s.len() && s.subrange(i, i + pat.len() as int) == pat
}

fn match_at(s: &Vec<u8>, pat: &Vec<u8>, i: usize) -> (r: bool)
    requires
        i + pat@.len() <= s@.len(),
    ensures
        r == occurs_at(s@, pat@, i as int),
{
    let m = pat.len();
    let n = s.len();
    let mut k: usize = 0;
    while k < m
        invariant
            m == pat@.len(),
            n == s@.len(),
            i + m <= n,
            k <= m,
            forall|j: int| 0 <= j < k ==> s@[i + j] == pat@[j],
        decreases m - k,
    {
        if s[i + k] != pat[k] {
            assert(s@.subrange(i as int, i + m as int)[k as int] != pat@[k as int]);
            return false;
        }
        k = k + 1;
    }
    proof {
        assert(s@.subrange(i as int, i + m as int) =~= pat@);
    }
    true
}

/// Deletes every occurrence of `pat` from `s`, scanning left to right.
pub fn remove_occurrences(s: &Vec<u8>, pat: &Vec<u8>) -> (r: Vec<u8>)
    ensures
        r@ == remove_all(s@, pat@),
{
    let n = s.len();
    let m = pat.len();
    if m == 0 {
        return crate::bytes::bytes_copy(s);
    }
    let mut out: Vec<u8> = Vec::new();
    let mut i: usize = 0;
    proof {
        assert(s@.skip(0) =~= s@);
        assert(Seq::<u8>::empty() + remove_all(s@, pat@) =~= remove_all(s@, pat@));
    }
    while i < n
        invariant
            n == s@.len(),
            m == pat@.len(),
            m > 0,
            i <= n,
            remove_all(s@, pat@) == out@ + remove_all(s@.skip(i as int), pat@),
        decreases n - i,
    {
        let ghost rest = s@.skip(i as int);
        if m <= n - i && match_at(s, pat, i) {
            proof {
                assert(rest.take(m as int) =~= s@.subrange(i as int, i + m as int));
                assert(rest.skip(m as int) =~= s@.skip(i + m as int));
                assert(remove_all(rest, pat@) == remove_all(s@.skip(i + m as int), pat@));
            }
            i = i + m;
        } else {
            proof {
                if i + m <= n {
                    assert(rest.take(m as int) =~= s@.subrange(i as int, i + m as int));
                    assert(rest.take(m as int) != pat@);
                } else {
                    assert(rest.len() < m);
                }
                assert(rest.skip(1) =~= s@.skip(i + 1 as int));
                if rest.len() >= m {
                    assert(remove_all(rest, pat@) == seq![rest[0]] + remove_all(
                        s@.skip(i + 1 as int),
                        pat@,
                    ));
                } else {
                    assert(n - i < m);
                    assert(n - (i + 1) < m);
                    lemma_remove_all_short(rest, pat@);
                    lemma_remove_all_short(s@.skip(i + 1 as int), pat@);
                    assert(seq![rest[0]] + s@.skip(i + 1 as int) =~= rest);
                }
            }
            let ghost prev = out@;
            out.push(s[i]);
            proof {
                assert(out@ =~= prev + seq![s@[i as int]]);
                assert(prev + (seq![s@[i as int]] + remove_all(s@.skip(i + 1 as int), pat@)) =~= (
                prev + seq![s@[i as int]]) + remove_all(s@.skip(i + 1 as int), pat@));
            }
            i = i + 1;
        }
    }
    proof {
        assert(s@.skip(n as int) =~= Seq::<u8>::empty());
        assert(remove_all(Seq::<u8>::empty(), pat@) =~= Seq::<u8>::empty());
        assert(out@ + Seq::<u8>::empty() =~= out@);
    }
    out
}

proof fn lemma_remove_all_short(s: Seq<u8>, pat: Seq<u8>)
    requires
        s.len() < pat.len(),
    ensures
        remove_all(s, pat) == s,
{
}

/// The first position of a blank line (two adjacent newline bytes).
pub open spec fn first_break(s: Seq<u8>, k: int) -> Option<int>
    decreases k,
{
    if k <= 0 {
        None
    } else {
        match first_break(s, k - 1) {
            Some(i) => Some(i),
            None => if k - 1 + 1 < s.len() && s[k - 1] == 0x0a && s[k] == 0x0a {
                Some(k - 1)
            } else {
                None
            },
        }
    }
}

#[derive(Debug)]
pub enum MessageError {
    /// The buffer holds no blank line separating title from description.
    MissingBreak,
    /// The title is empty once trimmed.
    EmptyTitle,
}

/// The parsed title of a message buffer split at break position `i`.
pub open spec fn spec_title(s: Seq<u8>, i: int) -> Seq<u8> {
    trimmed(s.take(i))
}

/// The parsed description of a message buffer split at break position `i`,
/// with the help marker deleted.
pub open spec fn spec_description(s: Seq<u8>, i: int, marker: Seq<u8>) -> Seq<u8> {
    remove_all(trimmed(s.skip(i + 2)), marker)
}

/// Splits an editor buffer at its first blank line into a trimmed title and
/// a trimmed description with every literal occurrence of the help marker
/// deleted. Fails when no blank line exists or the title is empty.
pub fn parse_message(buffer: &Vec<u8>, marker: &Vec<u8>) -> (r: Result<
    (Vec<u8>, Vec<u8>),
    MessageError,
>)
    ensures
        match r {
            Ok((title, description)) => {
                let f = first_break(buffer@, buffer@.len() as int);
                &&& f is Some
                &&& title@ == spec_title(buffer@, f->Some_0)
                &&& title@.len() > 0
                &&& description@ == spec_description(buffer@, f->Some_0, marker@)
            },
            Err(MessageError::MissingBreak) => first_break(buffer@, buffer@.len() as int) is None,
            Err(MessageError::EmptyTitle) => {
                let f = first_break(buffer@, buffer@.len() as int);
                f is Some && spec_title(buffer@, f->Some_0).len() == 0
            },
        },
{
    let n = buffer.len();
    let b = match find_first_break(buffer) {
        Some(b) => b,
        None => {
            return Err(MessageError::MissingBreak);
        },
    };
    let mut before: Vec<u8> = Vec::new();
    let mut k: usize = 0;
    while k < b
        invariant
            b < n == buffer@.len(),
            k <= b,
            before@ =~= buffer@.subrange(0, k as int),
        decreases b - k,
    {
        before.push(buffer[k]);
        proof {
            assert(before@ =~= buffer@.subrange(0, k + 1 as int));
        }
        k = k + 1;
    }
    proof {
        assert(before@ =~= buffer@.take(b as int));
    }
    let mut after: Vec<u8> = Vec::new();
    let mut k2: usize = b + 2;
    while k2 < n
        invariant
            b + 2 <= n == buffer@.len(),
            b + 2 <= k2 <= n,
            after@ =~= buffer@.subrange(b + 2 as int, k2 as int),
        decreases n - k2,
    {
        after.push(buffer[k2]);
        proof {
            assert(after@ =~= buffer@.subrange(b + 2 as int, k2 + 1 as int));
        }
        k2 = k2 + 1;
    }
    proof {
        assert(after@ =~= buffer@.skip(b + 2 as int));
    }
    let title = trim_bytes(&before);
    let description_raw = trim_bytes(&after);
    let description = remove_occurrences(&description_raw, marker);
    if title.len() == 0 {
        return Err(MessageError::EmptyTitle);
    }
    Ok((title, description))
}

/// Scans for the first blank line of the buffer.
fn find_first_break(buffer: &Vec<u8>) -> (r: Option<usize>)
    ensures
        match r {
            Some(b) => first_break(buffer@, buffer@.len() as int) == Some(b as int) && b + 1
                < buffer@.len(),
            None => first_break(buffer@, buffer@.len() as int) is None,
        },
{
    let n = buffer.len();
    let mut i: usize = 0;
    while i < n
        invariant
            n == buffer@.len(),
            i <= n,
            first_break(buffer@, i as int) is None,
        decreases n - i,
    {
        if i + 1 < n && buffer[i] == 0x0a && buffer[i + 1] == 0x0a {
            proof {
                lemma_first_break_step(buffer@, i as int, n as int);
            }
            return Some(i);
        }
        i = i + 1;
    }
    None
}

/// A break found at `i`, with none below, is the first for every bound past
/// it.
proof fn lemma_first_break_step(s: Seq<u8>, i: int, k: int)
    requires
        0 <= i,
        i + 1 < s.len(),
        i < k <= s.len(),
        first_break(s, i) is None,
        s[i] == 0x0a,
        s[i + 1] == 0x0a,
    ensures
        first_break(s, k) == Some(i),
    decreases k,
{
    if k > i + 1 {
        lemma_first_break_step(s, i, k - 1);
    }
}

} // verus!
