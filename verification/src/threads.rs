//! The work that the thread examples hand to their threads: a small
//! computation per thread, and a sum split into chunks whose partial sums add
//! up to the whole.

use vstd::prelude::*;

verus! {

/// How many numbers go into one chunk of work.
pub const N_THREADS: usize = 8;

/// `2` to the power `k`.
pub open spec fn two_to(k: nat) -> nat
    decreases k,
{
    if k == 0 {
        1
    } else {
        2 * two_to((k - 1) as nat)
    }
}

proof fn lemma_two_to_positive(k: nat)
    ensures
        two_to(k) >= 1,
    decreases k,
{
    if k > 0 {
        lemma_two_to_positive((k - 1) as nat);
    }
}

/// Adds one to `i` and doubles the result ten times, that is `(i + 1) * 1024`.
pub fn do_math(i: u32) -> (n: u32)
    requires
        (i + 1) * 1024 <= u32::MAX,
    ensures
        n == (i + 1) * 1024,
{
    let mut n: u32 = i + 1;
    let mut k: u32 = 0;
    assert(two_to(10) == 1024) by {
        reveal_with_fuel(two_to, 11);
    }
    while k < 10
        invariant
            k <= 10,
            (i + 1) * 1024 <= u32::MAX,
            n * two_to((10 - k) as nat) == (i + 1) * 1024,
        decreases 10 - k,
    {
        let ghost rest = two_to((10 - k - 1) as nat);
        proof {
            lemma_two_to_positive((10 - k - 1) as nat);
            assert(two_to((10 - k) as nat) == 2 * rest);
            assert(n * 2 <= n * (2 * rest)) by (nonlinear_arith)
                requires
                    rest >= 1,
            ;
            assert(n * (2 * rest) == (n * 2) * rest) by (nonlinear_arith);
        }
        n = n * 2;
        k = k + 1;
    }
    assert(k == 10);
    assert(two_to(0) == 1);
    assert(n * two_to(0) == n);
    n
}

/// The names the shared user list starts with.
pub fn build_users() -> (users: Vec<String>)
    ensures
        users@.map_values(|s: String| s@) == seq!["Alice"@, "Bob"@],
{
    let users = vec![String::from_str("Alice"), String::from_str("Bob")];
    assert(users@.map_values(|s: String| s@) =~= seq!["Alice"@, "Bob"@]);
    users
}

/// The sum of a sequence of integers.
pub open spec fn sum_ints(s: Seq<int>) -> int
    decreases s.len(),
{
    if s.len() == 0 {
        0
    } else {
        sum_ints(s.drop_last()) + s.last()
    }
}

/// The sum of a sequence of `u32` values, as a mathematical integer.
pub open spec fn sum32(s: Seq<u32>) -> int {
    sum_ints(as_ints(s))
}

/// The values of `s` as mathematical integers.
pub open spec fn as_ints(s: Seq<u32>) -> Seq<int> {
    s.map_values(|x: u32| x as int)
}

/// The sum of each chunk.
pub open spec fn chunk_sums(chunks: Seq<Seq<u32>>) -> Seq<int> {
    chunks.map_values(|c: Seq<u32>| sum32(c))
}

/// `s` cut into consecutive pieces of `size` elements; the last piece may be
/// shorter. A size of zero keeps `s` whole.
pub open spec fn chunks_of(s: Seq<u32>, size: nat) -> Seq<Seq<u32>>
    decreases s.len(),
{
    if s.len() == 0 {
        Seq::empty()
    } else if s.len() <= size || size == 0 {
        seq![s]
    } else {
        seq![s.take(size as int)] + chunks_of(s.skip(size as int), size)
    }
}

/// The sum of a single number is that number.
pub proof fn lemma_sum_ints_single(x: int)
    ensures
        sum_ints(seq![x]) == x,
{
    assert(seq![x].drop_last() =~= Seq::<int>::empty());
    reveal_with_fuel(sum_ints, 2);
}

/// Cutting into chunks loses and reorders nothing, and the chunks have the
/// requested size: joined together they give `s` back, every chunk but the
/// last holds exactly `size` elements, and the last holds between one and
/// `size` elements.
pub proof fn lemma_chunks_shape(s: Seq<u32>, size: nat)
    requires
        size > 0,
    ensures
        chunks_of(s, size).flatten() == s,
        forall|j: int| 0 <= j < chunks_of(s, size).len() - 1 ==> (#[trigger] chunks_of(s, size)[j]).len() == size,
        chunks_of(s, size).len() > 0 ==> 0 < chunks_of(s, size).last().len() <= size,
        (chunks_of(s, size).len() == 0) == (s.len() == 0),
    decreases s.len(),
{
    let cs = chunks_of(s, size);
    if s.len() == 0 {
        assert(cs.flatten() =~= s);
    } else if s.len() <= size {
        assert(cs.drop_first() =~= Seq::<Seq<u32>>::empty());
        assert(cs.drop_first().flatten() =~= Seq::<u32>::empty());
        assert(cs.flatten() =~= s);
    } else {
        let rest = s.skip(size as int);
        lemma_chunks_shape(rest, size);
        let rs = chunks_of(rest, size);
        assert(cs.drop_first() =~= rs);
        assert(cs.first() == s.take(size as int));
        assert(s.take(size as int) + rest =~= s);
        assert forall|j: int| 0 <= j < cs.len() - 1 implies (#[trigger] cs[j]).len() == size by {
            if j > 0 {
                assert(cs[j] == rs[j - 1]);
            }
        }
        assert(cs.last() == rs.last());
    }
}

/// Sums of concatenations add up.
pub proof fn lemma_sum_ints_append(a: Seq<int>, b: Seq<int>)
    ensures
        sum_ints(a + b) == sum_ints(a) + sum_ints(b),
    decreases b.len(),
{
    if b.len() > 0 {
        lemma_sum_ints_append(a, b.drop_last());
        assert((a + b).drop_last() =~= a + b.drop_last());
    } else {
        assert(a + b =~= a);
    }
}

/// Sums of concatenations of `u32` sequences add up.
pub proof fn lemma_sum32_append(a: Seq<u32>, b: Seq<u32>)
    ensures
        sum32(a + b) == sum32(a) + sum32(b),
{
    assert(as_ints(a + b) =~= as_ints(a) + as_ints(b));
    lemma_sum_ints_append(as_ints(a), as_ints(b));
}

/// Splitting a sum into chunks does not change it: the sum of the chunk sums
/// is the sum of the whole sequence.
pub proof fn lemma_chunk_sums_add_up(s: Seq<u32>, size: nat)
    ensures
        sum_ints(chunk_sums(chunks_of(s, size))) == sum32(s),
    decreases s.len(),
{
    let cs = chunks_of(s, size);
    if s.len() == 0 {
        assert(chunk_sums(cs) =~= Seq::<int>::empty());
        assert(as_ints(s) =~= Seq::<int>::empty());
    } else if s.len() <= size || size == 0 {
        assert(chunk_sums(cs) =~= seq![sum32(s)]);
        lemma_sum_ints_single(sum32(s));
    } else {
        let rest = s.skip(size as int);
        let head = s.take(size as int);
        lemma_chunk_sums_add_up(rest, size);
        assert(chunk_sums(cs) =~= seq![sum32(head)] + chunk_sums(chunks_of(rest, size)));
        lemma_sum_ints_append(seq![sum32(head)], chunk_sums(chunks_of(rest, size)));
        lemma_sum_ints_single(sum32(head));
        assert(head + rest =~= s);
        lemma_sum32_append(head, rest);
        assert(sum_ints(chunk_sums(cs)) == sum32(head) + sum32(rest));
    }
}

/// The partial sums of the chunks, however they were computed, add up to the
/// sum of the whole sequence.
pub proof fn lemma_partial_sums_add_up(s: Seq<u32>, size: nat, partials: Seq<u32>)
    requires
        partials.len() == chunks_of(s, size).len(),
        forall|j: int| 0 <= j < partials.len() ==> partials[j] == sum32(#[trigger] chunks_of(s, size)[j]),
    ensures
        sum32(partials) == sum32(s),
{
    lemma_chunk_sums_add_up(s, size);
    assert(as_ints(partials) =~= chunk_sums(chunks_of(s, size)));
}

/// Cuts `values` into chunks of `size` numbers each (the last may be shorter).
pub fn split_into_chunks(values: &[u32], size: usize) -> (chunks: Vec<Vec<u32>>)
    requires
        size > 0,
    ensures
        chunks@.map_values(|c: Vec<u32>| c@) == chunks_of(values@, size as nat),
        chunks@.map_values(|c: Vec<u32>| c@).flatten() == values@,
        forall|j: int| 0 <= j < chunks@.len() - 1 ==> (#[trigger] chunks@[j])@.len() == size,
        chunks@.len() > 0 ==> 0 < chunks@.last()@.len() <= size,
        (chunks@.len() == 0) == (values@.len() == 0),
{
    proof {
        lemma_chunks_shape(values@, size as nat);
    }
    let mut chunks: Vec<Vec<u32>> = Vec::new();
    let mut start: usize = 0;
    assert(values@.skip(0) =~= values@);
    assert(chunks@.map_values(|c: Vec<u32>| c@) + chunks_of(values@, size as nat) =~= chunks_of(values@, size as nat));
    while start < values.len()
        invariant
            size > 0,
            start <= values@.len(),
            chunks@.map_values(|c: Vec<u32>| c@) + chunks_of(values@.skip(start as int), size as nat)
                == chunks_of(values@, size as nat),
        decreases values@.len() - start,
    {
        let end: usize = if values.len() - start <= size {
            values.len()
        } else {
            start + size
        };
        let mut chunk: Vec<u32> = Vec::new();
        let mut k: usize = start;
        while k < end
            invariant
                start <= k <= end,
                end <= values@.len(),
                chunk@ == values@.subrange(start as int, k as int),
            decreases end - k,
        {
            chunk.push(values[k]);
            assert(chunk@ =~= values@.subrange(start as int, k + 1));
            k = k + 1;
        }
        let ghost rest = values@.skip(start as int);
        let ghost before = chunks@.map_values(|c: Vec<u32>| c@);
        chunks.push(chunk);
        proof {
            assert(chunks@.map_values(|c: Vec<u32>| c@) =~= before.push(chunk@));
            if rest.len() <= size {
                assert(chunk@ =~= rest);
                assert(values@.skip(end as int).len() == 0);
                assert(chunks_of(values@.skip(end as int), size as nat) =~= Seq::<Seq<u32>>::empty());
                assert(before.push(chunk@) + Seq::<Seq<u32>>::empty() =~= before + seq![rest]);
            } else {
                assert(chunk@ =~= rest.take(size as int));
                assert(rest.skip(size as int) =~= values@.skip(end as int));
                assert(before.push(chunk@) + chunks_of(values@.skip(end as int), size as nat)
                    =~= before + (seq![rest.take(size as int)] + chunks_of(rest.skip(size as int), size as nat)));
            }
        }
        start = end;
    }
    assert(values@.skip(start as int) =~= Seq::<u32>::empty());
    assert(chunks@.map_values(|c: Vec<u32>| c@) + Seq::<Seq<u32>>::empty() =~= chunks@.map_values(|c: Vec<u32>| c@));
    proof {
        let views = chunks@.map_values(|c: Vec<u32>| c@);
        assert forall|j: int| 0 <= j < chunks@.len() - 1 implies (#[trigger] chunks@[j])@.len() == size by {
            assert(views[j] == chunks@[j]@);
        }
        if chunks@.len() > 0 {
            assert(views.last() == chunks@.last()@);
        }
    }
    chunks
}

/// Sums one chunk of numbers.
pub fn sum_chunk(chunk: &[u32]) -> (total: u32)
    requires
        sum32(chunk@) <= u32::MAX,
    ensures
        total == sum32(chunk@),
{
    let mut total: u32 = 0;
    let mut i: usize = 0;
    while i < chunk.len()
        invariant
            i <= chunk@.len(),
            sum32(chunk@) <= u32::MAX,
            total == sum32(chunk@.take(i as int)),
        decreases chunk@.len() - i,
    {
        proof {
            assert(chunk@.take(i + 1) =~= chunk@.take(i as int) + seq![chunk@[i as int]]);
            lemma_sum32_append(chunk@.take(i as int), seq![chunk@[i as int]]);
            assert(as_ints(seq![chunk@[i as int]]) =~= seq![chunk@[i as int] as int]);
            lemma_sum_ints_single(chunk@[i as int] as int);
            assert(chunk@ =~= chunk@.take(i + 1) + chunk@.skip(i + 1));
            lemma_sum32_append(chunk@.take(i + 1), chunk@.skip(i + 1));
            lemma_sum_nonneg(chunk@.skip(i + 1));
        }
        total = total + chunk[i];
        i = i + 1;
    }
    assert(chunk@.take(i as int) =~= chunk@);
    total
}

/// Sums of `u32` values are never negative.
pub proof fn lemma_sum_nonneg(s: Seq<u32>)
    ensures
        sum32(s) >= 0,
    decreases s.len(),
{
    if s.len() > 0 {
        lemma_sum_nonneg(s.drop_last());
        assert(as_ints(s.drop_last()) =~= as_ints(s).drop_last());
    }
}

/// One answer at the prompt of the shared user list: `q` ends the prompt and
/// leaves the list alone; any other line is added to the end of the list.
pub fn user_list_step(users: &mut Vec<String>, line: String) -> (quit: bool)
    ensures
        quit == (line@ == "q"@),
        quit ==> final(users)@ == old(users)@,
        !quit ==> final(users)@ == old(users)@.push(line),
{
    if line == String::from_str("q") {
        true
    } else {
        users.push(line);
        false
    }
}

/// Whether `c` is one of `0-9`.
pub open spec fn is_digit(c: char) -> bool {
    '0' <= c <= '9'
}

/// The number written by the decimal digits `s`.
pub open spec fn digits_value(s: Seq<char>) -> int
    decreases s.len(),
{
    if s.len() == 0 {
        0
    } else {
        digits_value(s.drop_last()) * 10 + (s.last() as int - 48)
    }
}

/// What parsing `s` as a `usize` gives: an optional `+` followed by at least
/// one decimal digit and nothing else, whose value fits in a `usize`.
pub open spec fn parsed_usize(s: Seq<char>) -> Option<usize> {
    let digits = if s.len() > 0 && s[0] == '+' {
        s.skip(1)
    } else {
        s
    };
    if digits.len() > 0 && (forall|i: int| 0 <= i < digits.len() ==> is_digit(#[trigger] digits[i]))
        && digits_value(digits) <= usize::MAX {
        Some(digits_value(digits) as usize)
    } else {
        None
    }
}

/// Parses a `usize` with `str::parse`, which the standard library documents
/// as accepting an optional `+` sign followed by decimal digits only, and
/// failing on anything else or on a value that does not fit.
#[verifier::external_body]
fn parse_usize(s: &str) -> (n: Option<usize>)
    ensures
        n == parsed_usize(s@),
{
    s.parse::<usize>().ok()
}

/// What to do with a line typed at the parking prompt.
#[derive(Debug, PartialEq, Eq, Clone, Copy, Structural)]
pub enum ParkCommand {
    /// Stop asking.
    Quit,
    /// Wake the thread with this number.
    Unpark(usize),
    /// Not a thread number; ask again.
    Ignore,
}

/// `q` quits; the number of one of the `n_threads` threads wakes it; any
/// other line is ignored.
pub fn park_command(line: &str, n_threads: usize) -> (c: ParkCommand)
    ensures
        c == if line@ == "q"@ {
            ParkCommand::Quit
        } else {
            match parsed_usize(line@) {
                Some(k) => if k < n_threads {
                    ParkCommand::Unpark(k)
                } else {
                    ParkCommand::Ignore
                },
                None => ParkCommand::Ignore,
            }
        },
{
    if String::from_str(line) == String::from_str("q") {
        return ParkCommand::Quit;
    }
    match parse_usize(line) {
        Some(k) => if k < n_threads {
            ParkCommand::Unpark(k)
        } else {
            ParkCommand::Ignore
        },
        None => ParkCommand::Ignore,
    }
}

} // verus!
