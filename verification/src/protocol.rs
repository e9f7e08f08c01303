//! Parsing of a single protocol line: null-byte removal, whitespace
//! trimming, and the split of a cleaned line into command and argument.

use vstd::prelude::*;

verus! {

/// ASCII whitespace: space, tab, line feed, vertical tab, form feed,
/// carriage return.
pub open spec fn is_space(b: u8) -> bool {
    b == 32 || b == 9 || b == 10 || b == 11 || b == 12 || b == 13
}

/// The sequence with every null byte removed, other bytes kept in order.
pub open spec fn strip_nulls(s: Seq<u8>) -> Seq<u8>
    decreases s.len(),
{
    if s.len() == 0 {
        Seq::empty()
    } else if s.last() == 0 {
        strip_nulls(s.drop_last())
    } else {
        strip_nulls(s.drop_last()).push(s.last())
    }
}

/// The sequence with leading whitespace removed.
pub open spec fn trim_front(s: Seq<u8>) -> Seq<u8>
    decreases s.len(),
{
    if s.len() > 0 && is_space(s[0]) {
        trim_front(s.subrange(1, s.len() as int))
    } else {
        s
    }
}

/// The sequence with trailing whitespace removed.
pub open spec fn trim_back(s: Seq<u8>) -> Seq<u8>
    decreases s.len(),
{
    if s.len() > 0 && is_space(s.last()) {
        trim_back(s.drop_last())
    } else {
        s
    }
}

/// A raw line after cleaning: null bytes removed, then whitespace trimmed
/// from both ends.
pub open spec fn clean_line(s: Seq<u8>) -> Seq<u8> {
    trim_back(trim_front(strip_nulls(s)))
}

/// Index of the first occurrence of `b` in `s`, or `s.len()` if there is
/// none.
pub open spec fn find_byte(s: Seq<u8>, b: u8) -> int
    decreases s.len(),
{
    if s.len() == 0 {
        0
    } else if s[0] == b {
        0
    } else {
        1 + find_byte(s.subrange(1, s.len() as int), b)
    }
}

/// The command part of a line: the cleaned line up to its first space.
pub open spec fn command_of(line: Seq<u8>) -> Seq<u8> {
    let c = clean_line(line);
    c.take(find_byte(c, 32))
}

/// The argument part of a line: everything after the first space of the
/// cleaned line, trimmed; empty when the cleaned line has no space.
pub open spec fn argument_of(line: Seq<u8>) -> Seq<u8> {
    let c = clean_line(line);
    let i = find_byte(c, 32);
    if i == c.len() {
        Seq::empty()
    } else {
        trim_back(trim_front(c.subrange(i + 1, c.len() as int)))
    }
}

proof fn lemma_find_byte_bounds(s: Seq<u8>, b: u8)
    ensures
        0 <= find_byte(s, b) <= s.len(),
        forall|k: int| 0 <= k < find_byte(s, b) ==> s[k] != b,
        find_byte(s, b) < s.len() ==> s[find_byte(s, b)] == b,
    decreases s.len(),
{
    if s.len() == 0 {
    } else if s[0] == b {
    } else {
        lemma_find_byte_bounds(s.subrange(1, s.len() as int), b);
        assert forall|k: int| 0 <= k < find_byte(s, b) implies s[k] != b by {
            if k >= 1 {
                assert(s.subrange(1, s.len() as int)[k - 1] == s[k]);
            }
        }
        if find_byte(s, b) < s.len() {
            assert(s.subrange(1, s.len() as int)[find_byte(s, b) - 1] == s[find_byte(s, b)]);
        }
    }
}

/// A characterization of `find_byte` from a witness index: if everything
/// before `i` differs from `b` and `i` is `s.len()` or holds `b`, then `i`
/// is where `find_byte` points.
proof fn lemma_find_byte_is(s: Seq<u8>, b: u8, i: int)
    requires
        0 <= i <= s.len(),
        forall|k: int| 0 <= k < i ==> s[k] != b,
        i == s.len() || s[i] == b,
    ensures
        find_byte(s, b) == i,
{
    lemma_find_byte_bounds(s, b);
    if find_byte(s, b) < i {
        assert(s[find_byte(s, b)] == b);
    }
    if i < find_byte(s, b) {
        assert(s[i] != b);
    }
}

proof fn lemma_strip_nulls_take_step(s: Seq<u8>, i: int)
    requires
        0 <= i < s.len(),
    ensures
        strip_nulls(s.take(i + 1)) == if s[i] == 0 {
            strip_nulls(s.take(i))
        } else {
            strip_nulls(s.take(i)).push(s[i])
        },
{
    let t = s.take(i + 1);
    assert(t.len() == i + 1);
    assert(t.last() == s[i]);
    assert(t.drop_last() =~= s.take(i));
}

proof fn lemma_trim_front_is_skip(s: Seq<u8>, i: int)
    requires
        0 <= i <= s.len(),
        forall|k: int| 0 <= k < i ==> is_space(s[k]),
        i == s.len() || !is_space(s[i]),
    ensures
        trim_front(s) == s.subrange(i, s.len() as int),
    decreases i,
{
    if i == 0 {
        assert(s.subrange(0, s.len() as int) =~= s);
    } else {
        assert(is_space(s[0]));
        let t = s.subrange(1, s.len() as int);
        assert(forall|k: int| 0 <= k < i - 1 ==> t[k] == s[k + 1] && is_space(t[k]));
        if i - 1 < t.len() {
            assert(t[i - 1] == s[i]);
        }
        lemma_trim_front_is_skip(t, i - 1);
        assert(t.subrange(i - 1, t.len() as int) =~= s.subrange(i, s.len() as int));
    }
}

proof fn lemma_trim_back_is_take(s: Seq<u8>, i: int)
    requires
        0 <= i <= s.len(),
        forall|k: int| i <= k < s.len() ==> is_space(s[k]),
        i == 0 || !is_space(s[i - 1]),
    ensures
        trim_back(s) == s.take(i),
    decreases s.len() - i,
{
    if i == s.len() {
        assert(s.take(i) =~= s);
    } else {
        assert(is_space(s.last()));
        let t = s.drop_last();
        lemma_trim_back_is_take(t, i);
        assert(t.take(i) =~= s.take(i));
    }
}

/// Removes every null byte from `line`, keeping the other bytes in order.
fn strip_nulls_exec(line: &[u8]) -> (r: Vec<u8>)
    ensures
        r@ == strip_nulls(line@),
{
    let mut out: Vec<u8> = Vec::new();
    let mut i: usize = 0;
    proof {
        assert(line@.take(0) =~= Seq::<u8>::empty());
    }
    while i < line.len()
        invariant
            0 <= i <= line@.len(),
            out@ == strip_nulls(line@.take(i as int)),
        decreases line@.len() - i,
    {
        proof {
            lemma_strip_nulls_take_step(line@, i as int);
        }
        let b = line[i];
        if b != 0 {
            out.push(b);
        }
        i = i + 1;
    }
    proof {
        assert(line@.take(line@.len() as int) =~= line@);
    }
    out
}

/// Cleans a raw line: removes null bytes, then trims surrounding
/// whitespace.
pub fn clean_line_exec(line: &[u8]) -> (r: Vec<u8>)
    ensures
        r@ == clean_line(line@),
{
    let stripped = strip_nulls_exec(line);
    trim_exec(&stripped)
}

/// Whether `b` is ASCII whitespace.
pub fn is_space_exec(b: u8) -> (r: bool)
    ensures
        r == is_space(b),
{
    b == 32 || b == 9 || b == 10 || b == 11 || b == 12 || b == 13
}

/// The bytes of the handshake command word `name`.
pub open spec fn name_command() -> Seq<u8> {
    seq![110u8, 97u8, 109u8, 101u8]
}

/// Whether two byte slices hold the same bytes.
pub fn bytes_eq(a: &[u8], b: &[u8]) -> (r: bool)
    ensures
        r == (a@ == b@),
{
    if a.len() != b.len() {
        return false;
    }
    let mut i: usize = 0;
    while i < a.len()
        invariant
            0 <= i <= a@.len(),
            a@.len() == b@.len(),
            forall|k: int| 0 <= k < i ==> a@[k] == b@[k],
        decreases a@.len() - i,
    {
        if a[i] != b[i] {
            return false;
        }
        i = i + 1;
    }
    proof {
        assert(a@ =~= b@);
    }
    true
}

/// Splits a raw line into its command and its argument, as the cleaned
/// line defines them.
pub fn split_command(line: &[u8]) -> (r: (Vec<u8>, Vec<u8>))
    ensures
        r.0@ == command_of(line@),
        r.1@ == argument_of(line@),
{
    let cleaned = clean_line_exec(line);
    let mut i: usize = 0;
    while i < cleaned.len() && cleaned[i] != 32
        invariant
            0 <= i <= cleaned@.len(),
            forall|k: int| 0 <= k < i ==> cleaned@[k] != 32,
        decreases cleaned@.len() - i,
    {
        i = i + 1;
    }
    proof {
        lemma_find_byte_is(cleaned@, 32, i as int);
    }
    let mut command: Vec<u8> = Vec::new();
    let mut k: usize = 0;
    while k < i
        invariant
            0 <= k <= i <= cleaned@.len(),
            command@ =~= cleaned@.take(k as int),
        decreases i - k,
    {
        command.push(cleaned[k]);
        k = k + 1;
    }
    if i == cleaned.len() {
        let argument: Vec<u8> = Vec::new();
        proof {
            assert(argument@ =~= argument_of(line@));
        }
        (command, argument)
    } else {
        let mut rest: Vec<u8> = Vec::new();
        let mut k: usize = i + 1;
        while k < cleaned.len()
            invariant
                i + 1 <= k <= cleaned@.len(),
                rest@ =~= cleaned@.subrange(i + 1, k as int),
            decreases cleaned@.len() - k,
        {
            rest.push(cleaned[k]);
            k = k + 1;
        }
        proof {
            assert(rest@ =~= cleaned@.subrange(i + 1, cleaned@.len() as int));
        }
        let argument = trim_exec(&rest);
        (command, argument)
    }
}

/// Trims surrounding whitespace from `s`.
fn trim_exec(s: &Vec<u8>) -> (r: Vec<u8>)
    ensures
        r@ == trim_back(trim_front(s@)),
{
    let mut lo: usize = 0;
    while lo < s.len() && is_space_exec(s[lo])
        invariant
            0 <= lo <= s@.len(),
            forall|k: int| 0 <= k < lo ==> is_space(s@[k]),
        decreases s@.len() - lo,
    {
        lo = lo + 1;
    }
    proof {
        lemma_trim_front_is_skip(s@, lo as int);
    }
    let mut hi: usize = s.len();
    while hi > lo && is_space_exec(s[hi - 1])
        invariant
            lo <= hi <= s@.len(),
            forall|k: int| hi <= k < s@.len() ==> is_space(s@[k]),
        decreases hi,
    {
        hi = hi - 1;
    }
    let ghost trimmed = trim_front(s@);
    proof {
        lemma_trim_back_is_take(trimmed, hi - lo);
        assert forall|k: int| (hi - lo) <= k < trimmed.len() implies is_space(trimmed[k]) by {
            assert(trimmed[k] == s@[k + lo]);
        }
        if hi > lo {
            assert(trimmed[hi - lo - 1] == s@[hi - 1]);
        }
    }
    let mut out: Vec<u8> = Vec::new();
    let mut i: usize = lo;
    while i < hi
        invariant
            lo <= i <= hi <= s@.len(),
            out@ =~= s@.subrange(lo as int, i as int),
        decreases hi - i,
    {
        out.push(s[i]);
        i = i + 1;
    }
    proof {
        assert(trim_back(trimmed) == trimmed.take(hi - lo));
        assert(out@ =~= trimmed.take(hi - lo));
    }
    out
}

/// The complete lines carried by one inbound chunk: the chunk split at
/// every line feed, with a trailing segment without a line feed counted as
/// a line of its own. A chunk never spans two reads, so a line that a read
/// burst cuts off is taken as it stands.
pub open spec fn lines_of(chunk: Seq<u8>) -> Seq<Seq<u8>>
    decreases chunk.len(),
{
    if chunk.len() == 0 {
        Seq::empty()
    } else {
        let i = find_byte(chunk, 10);
        if 0 <= i < chunk.len() {
            seq![chunk.take(i)] + lines_of(chunk.subrange(i + 1, chunk.len() as int))
        } else {
            seq![chunk]
        }
    }
}

/// A chunk never carries more lines than bytes.
pub proof fn lemma_lines_of_len(chunk: Seq<u8>)
    ensures
        lines_of(chunk).len() <= chunk.len(),
    decreases chunk.len(),
{
    if chunk.len() == 0 {
    } else {
        let i = find_byte(chunk, 10);
        lemma_find_byte_bounds(chunk, 10);
        if i < chunk.len() {
            lemma_lines_of_len(chunk.subrange(i + 1, chunk.len() as int));
        }
    }
}

/// Splits an inbound chunk into its complete lines, in order.
pub fn split_lines(chunk: &[u8]) -> (r: Vec<Vec<u8>>)
    ensures
        r@.len() == lines_of(chunk@).len(),
        forall|k: int| 0 <= k < r@.len() ==> r@[k]@ == lines_of(chunk@)[k],
{
    let mut out: Vec<Vec<u8>> = Vec::new();
    let mut p: usize = 0;
    proof {
        assert(chunk@.subrange(0, chunk@.len() as int) =~= chunk@);
    }
    while p < chunk.len()
        invariant
            0 <= p <= chunk@.len(),
            out@.len() + lines_of(chunk@.subrange(p as int, chunk@.len() as int)).len()
                == lines_of(chunk@).len(),
            forall|k: int| 0 <= k < out@.len() ==> out@[k]@ == lines_of(chunk@)[k],
            forall|k: int|
                0 <= k < lines_of(chunk@.subrange(p as int, chunk@.len() as int)).len()
                    ==> lines_of(chunk@.subrange(p as int, chunk@.len() as int))[k] == lines_of(
                    chunk@,
                )[out@.len() + k],
        decreases chunk@.len() - p,
    {
        let ghost rest = chunk@.subrange(p as int, chunk@.len() as int);
        let mut j: usize = p;
        while j < chunk.len() && chunk[j] != 10
            invariant
                p <= j <= chunk@.len(),
                forall|k: int| p <= k < j ==> chunk@[k] != 10,
            decreases chunk@.len() - j,
        {
            j = j + 1;
        }
        proof {
            assert forall|k: int| 0 <= k < j - p implies rest[k] != 10 by {
                assert(rest[k] == chunk@[p + k]);
            }
            if (j as int) < chunk@.len() {
                assert(rest[j - p] == chunk@[j as int]);
            }
            lemma_find_byte_is(rest, 10, j - p);
        }
        let line = vstd::slice::slice_to_vec(vstd::slice::slice_subrange(chunk, p, j));
        proof {
            assert(line@ =~= rest.take(j - p));
        }
        if j == chunk.len() {
            proof {
                assert(rest.len() > 0);
                assert(lines_of(rest) =~= seq![rest]);
                assert(rest.take(j - p) =~= rest);
                assert(lines_of(rest)[0] == rest);
                assert(line@ == lines_of(chunk@)[out@.len() as int]);
            }
            out.push(line);
            p = j;
            proof {
                assert(chunk@.subrange(p as int, chunk@.len() as int).len() == 0);
                assert(lines_of(chunk@.subrange(p as int, chunk@.len() as int)).len() == 0);
            }
        } else {
            let ghost rest2 = chunk@.subrange(j + 1, chunk@.len() as int);
            proof {
                assert(rest.len() > 0);
                assert(find_byte(rest, 10) == j - p < rest.len());
                assert(lines_of(rest) == seq![rest.take(j - p)] + lines_of(
                    rest.subrange(j - p + 1, rest.len() as int),
                ));
                assert(rest.subrange(j - p + 1, rest.len() as int) =~= rest2);
                assert(lines_of(rest)[0] == rest.take(j - p));
                assert(line@ == lines_of(chunk@)[out@.len() as int]);
                assert forall|k: int| 0 <= k < lines_of(rest2).len() implies lines_of(rest2)[k]
                    == lines_of(chunk@)[out@.len() + 1 + k] by {
                    assert(lines_of(rest)[1 + k] == lines_of(rest2)[k]);
                }
            }
            out.push(line);
            p = j + 1;
        }
    }
    proof {
        assert(lines_of(chunk@.subrange(p as int, chunk@.len() as int)).len() == 0);
    }
    out
}

/// Whether `line` is the handshake command; if so, stores the peer name
/// carried by the line into `name`.
pub fn get_name(line: &[u8], name: &mut Vec<u8>) -> (r: bool)
    ensures
        r == (command_of(line@) == name_command()),
        r ==> final(name)@ == argument_of(line@),
        !r ==> *final(name) == *old(name),
{
    let (command, argument) = split_command(line);
    let word: [u8; 4] = [110, 97, 109, 101];
    proof {
        assert(word@ =~= name_command());
    }
    if bytes_eq(command.as_slice(), word.as_slice()) {
        *name = argument;
        true
    } else {
        false
    }
}

} // verus!
