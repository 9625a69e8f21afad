//! Added and modified lines, read from the hunk headers of a unified diff.
//!
//! A hunk header reads `@@ -a[,b] +c[,d] @@`. Only the new side counts: it
//! covers the lines `c .. c + d`, where an omitted `d` means one line. A
//! header counts only where it opens a line of the diff; content lines that
//! merely hold such text are skipped. The headers are found as a
//! left-to-right scan that, on a match, resumes right after the closing `@@`.
use std::collections::HashSet;
use vstd::prelude::*;
use vstd::string::StringSliceAdditionalSpecFns;

verus! {

broadcast use vstd::std_specs::hash::group_hash_axioms;

/// An ASCII decimal digit.
pub open spec fn is_digit(b: u8) -> bool {
    48 <= b <= 57
}

/// The first position at or after `i` that holds no digit.
pub open spec fn digits_end(s: Seq<u8>, i: int) -> int
    decreases s.len() - i,
{
    if 0 <= i < s.len() && is_digit(s[i]) {
        digits_end(s, i + 1)
    } else {
        i
    }
}

/// The number that a run of digits spells in decimal.
pub open spec fn digits_value(d: Seq<u8>) -> nat
    decreases d.len(),
{
    if d.len() == 0 {
        0
    } else {
        digits_value(d.drop_last()) * 10 + (d.last() - 48) as nat
    }
}

/// The end of a non-empty run of digits that starts at `i`.
pub open spec fn digits_at(s: Seq<u8>, i: int) -> Option<int> {
    if 0 <= i < s.len() && is_digit(s[i]) {
        Some(digits_end(s, i))
    } else {
        None
    }
}

/// True when `s` holds the bytes of `lit` from position `i` on.
pub open spec fn bytes_at(s: Seq<u8>, i: int, lit: Seq<u8>) -> bool {
    0 <= i && i + lit.len() <= s.len() && s.subrange(i, i + lit.len()) == lit
}

/// A side of a header, `n` or `n,m`, starting at `i`: the position after it.
/// A comma that no digit follows ends no side.
pub open spec fn side_end(s: Seq<u8>, i: int) -> Option<int> {
    match digits_at(s, i) {
        None => None,
        Some(j) => if j < s.len() && s[j] == 44u8 {
            digits_at(s, j + 1)
        } else {
            Some(j)
        },
    }
}

/// One header found at position `i`: the new side's first line and count.
pub struct HeaderMatch {
    pub start: nat,
    pub count: nat,
    pub end: int,
}

/// `@@ -`
pub open spec fn open_old() -> Seq<u8> {
    seq![64u8, 64u8, 32u8, 45u8]
}

/// ` +`
pub open spec fn open_new() -> Seq<u8> {
    seq![32u8, 43u8]
}

/// ` @@`
pub open spec fn close_header() -> Seq<u8> {
    seq![32u8, 64u8, 64u8]
}

/// Position `i` opens a line: it is the first byte, or follows a newline.
pub open spec fn line_start(s: Seq<u8>, i: int) -> bool {
    i == 0 || (0 < i <= s.len() && s[i - 1] == 10u8)
}

/// The header that starts exactly at `i`, if one does.
pub open spec fn header_at(s: Seq<u8>, i: int) -> Option<HeaderMatch> {
    if !line_start(s, i) || !bytes_at(s, i, open_old()) {
        None
    } else {
        match side_end(s, i + 4) {
            None => None,
            Some(a) => if !bytes_at(s, a, open_new()) {
                None
            } else {
                match digits_at(s, a + 2) {
                    None => None,
                    Some(j) => {
                        let start = digits_value(s.subrange(a + 2, j));
                        if j < s.len() && s[j] == 44u8 {
                            match digits_at(s, j + 1) {
                                None => None,
                                Some(k) => if bytes_at(s, k, close_header()) {
                                    Some(
                                        HeaderMatch {
                                            start,
                                            count: digits_value(s.subrange(j + 1, k)),
                                            end: k + 3,
                                        },
                                    )
                                } else {
                                    None
                                },
                            }
                        } else if bytes_at(s, j, close_header()) {
                            Some(HeaderMatch { start, count: 1, end: j + 3 })
                        } else {
                            None
                        }
                    },
                }
            },
        }
    }
}

/// The (first line, count) pairs of the headers found from position `i` on.
pub open spec fn hunks_from(s: Seq<u8>, i: int) -> Seq<(nat, nat)>
    decreases s.len() - i,
{
    if i < 0 || i >= s.len() {
        seq![]
    } else {
        match header_at(s, i) {
            Some(h) => if i < h.end {
                seq![(h.start, h.count)] + hunks_from(s, h.end)
            } else {
                seq![]
            },
            None => hunks_from(s, i + 1),
        }
    }
}

/// True when one of the hunks covers line `n`.
pub open spec fn covers(hs: Seq<(nat, nat)>, n: int) -> bool {
    exists|k: int| 0 <= k < hs.len() && #[trigger] hs[k].0 <= n < hs[k].0 + hs[k].1
}

/// The lines that the hunk headers of `diff` mark as added or modified.
pub open spec fn modified_line_set(diff: Seq<u8>) -> Set<int> {
    Set::new(|n: int| covers(hunks_from(diff, 0), n))
}

proof fn lemma_covers_push(hs: Seq<(nat, nat)>, h: (nat, nat), n: int)
    ensures
        covers(hs.push(h), n) <==> (covers(hs, n) || (h.0 <= n < h.0 + h.1)),
{
    let hp = hs.push(h);
    if covers(hs, n) {
        let k = choose|k: int| 0 <= k < hs.len() && #[trigger] hs[k].0 <= n < hs[k].0 + hs[k].1;
        assert(hp[k] == hs[k]);
    }
    if h.0 <= n < h.0 + h.1 {
        assert(hp[hs.len() as int] == h);
    }
    if covers(hp, n) {
        let k = choose|k: int| 0 <= k < hp.len() && #[trigger] hp[k].0 <= n < hp[k].0 + hp[k].1;
        if k < hs.len() {
            assert(hp[k] == hs[k]);
        }
    }
}

proof fn lemma_bytes_at(s: Seq<u8>, i: int, lit: Seq<u8>)
    requires
        0 <= i,
        i + lit.len() <= s.len(),
    ensures
        bytes_at(s, i, lit) <==> forall|k: int| 0 <= k < lit.len() ==> s[i + k] == lit[k],
{
    if forall|k: int| 0 <= k < lit.len() ==> s[i + k] == lit[k] {
        assert(s.subrange(i, i + lit.len()) =~= lit);
    }
    if bytes_at(s, i, lit) {
        assert forall|k: int| 0 <= k < lit.len() implies s[i + k] == lit[k] by {
            assert(s.subrange(i, i + lit.len())[k] == s[i + k]);
        }
    }
}

/// Whether `s` holds the bytes of `lit` from position `i` on.
pub(crate) fn lit_at(s: &[u8], i: usize, lit: &[u8]) -> (r: bool)
    ensures
        r == bytes_at(s@, i as int, lit@),
{
    if i > s.len() || lit.len() > s.len() - i {
        return false;
    }
    proof {
        lemma_bytes_at(s@, i as int, lit@);
    }
    let mut k: usize = 0;
    while k < lit.len()
        invariant
            k <= lit@.len(),
            i + lit@.len() <= s@.len(),
            s@.len() <= usize::MAX,
            forall|m: int| 0 <= m < k ==> s@[i + m] == lit@[m],
        decreases lit@.len() - k,
    {
        if s[i + k] != lit[k] {
            return false;
        }
        k += 1;
    }
    true
}

/// The first position at or after `i` that holds no digit.
fn scan_digits(s: &[u8], i: usize) -> (r: usize)
    requires
        i <= s@.len(),
    ensures
        r as int == digits_end(s@, i as int),
        i <= r <= s@.len(),
        forall|k: int| i <= k < r ==> is_digit(#[trigger] s@[k]),
{
    let mut j = i;
    while j < s.len() && 48 <= s[j] && s[j] <= 57
        invariant
            i <= j <= s@.len(),
            digits_end(s@, j as int) == digits_end(s@, i as int),
            forall|k: int| i <= k < j ==> is_digit(#[trigger] s@[k]),
        decreases s@.len() - j,
    {
        j += 1;
    }
    j
}

/// The value of the digits `s[i..j]`, or `None` where it exceeds `usize::MAX`.
fn parse_number(s: &[u8], i: usize, j: usize) -> (r: Option<usize>)
    requires
        i <= j <= s@.len(),
        forall|k: int| i <= k < j ==> is_digit(#[trigger] s@[k]),
    ensures
        match r {
            Some(v) => v as nat == digits_value(s@.subrange(i as int, j as int)),
            None => digits_value(s@.subrange(i as int, j as int)) > usize::MAX,
        },
{
    let mut acc: Option<usize> = Some(0);
    let mut k = i;
    assert(s@.subrange(i as int, i as int) =~= Seq::<u8>::empty());
    while k < j
        invariant
            i <= k <= j,
            j <= s@.len(),
            forall|m: int| i <= m < j ==> is_digit(#[trigger] s@[m]),
            match acc {
                Some(v) => v as nat == digits_value(s@.subrange(i as int, k as int)),
                None => digits_value(s@.subrange(i as int, k as int)) > usize::MAX,
            },
        decreases j - k,
    {
        assert(is_digit(s@[k as int]));
        let d: usize = (s[k] - 48) as usize;
        assert(s@.subrange(i as int, k + 1).drop_last() =~= s@.subrange(i as int, k as int));
        assert(s@.subrange(i as int, k + 1).last() == s@[k as int]);
        acc = match acc {
            Some(v) => match v.checked_mul(10) {
                Some(m) => m.checked_add(d),
                None => None,
            },
            None => None,
        };
        k += 1;
    }
    acc
}

/// A header's new side in machine integers; `None` where a number does not
/// fit in `usize`.
struct ParsedHeader {
    start: Option<usize>,
    count: Option<usize>,
    end: usize,
}

/// A number of the header against its value in the model.
spec fn fits(v: Option<usize>, n: nat) -> bool {
    match v {
        Some(x) => x as nat == n,
        None => n > usize::MAX,
    }
}

/// Reads the header that starts exactly at `i`, if one does.
fn header_at_exec(s: &[u8], i: usize) -> (r: Option<ParsedHeader>)
    requires
        i < s@.len(),
    ensures
        match r {
            None => header_at(s@, i as int) is None,
            Some(p) => {
                &&& header_at(s@, i as int) is Some
                &&& fits(p.start, header_at(s@, i as int)->Some_0.start)
                &&& fits(p.count, header_at(s@, i as int)->Some_0.count)
                &&& p.end as int == header_at(s@, i as int)->Some_0.end
                &&& i < p.end <= s@.len()
            },
        },
{
    let len = s.len();
    if i != 0 && s[i - 1] != 10u8 {
        return None;
    }
    if !lit_at(s, i, &[64u8, 64u8, 32u8, 45u8]) {
        return None;
    }
    let ghost t = s@;
    assert([64u8, 64u8, 32u8, 45u8]@ == open_old());
    assert(t.subrange(i as int, i + 4) == open_old());
    let p = i + 4;
    if p >= s.len() || !(48 <= s[p] && s[p] <= 57) {
        return None;
    }
    let mut a = scan_digits(s, p);
    if a < s.len() && s[a] == 44u8 {
        if a + 1 >= s.len() || !(48 <= s[a + 1] && s[a + 1] <= 57) {
            return None;
        }
        a = scan_digits(s, a + 1);
    }
    assert(side_end(t, i + 4) == Some(a as int));
    if !lit_at(s, a, &[32u8, 43u8]) {
        return None;
    }
    let q = a + 2;
    if q >= s.len() || !(48 <= s[q] && s[q] <= 57) {
        return None;
    }
    let j = scan_digits(s, q);
    let start = parse_number(s, q, j);
    if j < s.len() && s[j] == 44u8 {
        if j + 1 >= s.len() || !(48 <= s[j + 1] && s[j + 1] <= 57) {
            return None;
        }
        let k = scan_digits(s, j + 1);
        if !lit_at(s, k, &[32u8, 64u8, 64u8]) {
            return None;
        }
        let count = parse_number(s, j + 1, k);
        Some(ParsedHeader { start, count, end: k + 3 })
    } else {
        if !lit_at(s, j, &[32u8, 64u8, 64u8]) {
            return None;
        }
        Some(ParsedHeader { start, count: Some(1), end: j + 3 })
    }
}

/// Adds the lines `start .. start + count` that fit in `usize`.
fn add_lines(
    lines: &mut HashSet<usize>,
    start: Option<usize>,
    count: Option<usize>,
    Ghost(first): Ghost<nat>,
    Ghost(n_lines): Ghost<nat>,
)
    requires
        fits(start, first),
        fits(count, n_lines),
    ensures
        forall|n: usize|
            #[trigger] final(lines)@.contains(n) <==> (old(lines)@.contains(n) || (first <= n
                < first + n_lines)),
{
    let lo = match start {
        Some(v) => v,
        None => return ,
    };
    let hi: usize = match count {
        Some(c) => {
            if c == 0 {
                return ;
            }
            if c - 1 > usize::MAX - lo {
                usize::MAX
            } else {
                lo + (c - 1)
            }
        },
        None => usize::MAX,
    };
    let mut n = lo;
    loop
        invariant_except_break
            lo <= n <= hi,
            forall|m: usize|
                #[trigger] lines@.contains(m) <==> (old(lines)@.contains(m) || (lo <= m < n)),
        ensures
            forall|m: usize|
                #[trigger] lines@.contains(m) <==> (old(lines)@.contains(m) || (lo <= m <= hi)),
        decreases hi - n,
    {
        lines.insert(n);
        if n == hi {
            break;
        }
        n += 1;
    }
}

/// The lines that the hunk headers of `diff` mark as added or modified: for
/// each header `@@ -a[,b] +c[,d] @@`, the lines `c .. c + d`, with `d` one
/// where it is omitted.
pub fn modified_lines_from_diff(diff: &str) -> (r: HashSet<usize>)
    ensures
        forall|n: usize| #[trigger]
            r@.contains(n) <==> modified_line_set(diff.spec_bytes()).contains(n as int),
{
    let s = diff.as_bytes();
    let mut lines: HashSet<usize> = HashSet::new();
    let ghost mut done: Seq<(nat, nat)> = seq![];
    let mut i: usize = 0;
    while i < s.len()
        invariant
            i <= s@.len(),
            hunks_from(s@, 0) == done + hunks_from(s@, i as int),
            forall|n: usize| #[trigger] lines@.contains(n) <==> covers(done, n as int),
        decreases s@.len() - i,
    {
        match header_at_exec(s, i) {
            Some(p) => {
                let ghost h = header_at(s@, i as int)->Some_0;
                add_lines(&mut lines, p.start, p.count, Ghost(h.start), Ghost(h.count));
                proof {
                    assert forall|n: usize| #[trigger]
                        lines@.contains(n) == covers(done.push((h.start, h.count)), n as int) by {
                        lemma_covers_push(done, (h.start, h.count), n as int);
                    }
                    assert(done + hunks_from(s@, i as int) =~= done.push((h.start, h.count))
                        + hunks_from(s@, p.end as int));
                    done = done.push((h.start, h.count));
                }
                i = p.end;
            },
            None => {
                i += 1;
            },
        }
    }
    assert(done + hunks_from(s@, i as int) =~= done);
    lines
}

/// The modified lines of one file, from the output of the diff command:
/// `None` stands for a diff that could not be had (no binary, no repository,
/// a failed run, output that is not UTF-8), and gives the empty set.
pub fn modified_lines_from_output(output: Option<&str>) -> (r: HashSet<usize>)
    ensures
        match output {
            Some(diff) => forall|n: usize| #[trigger]
                r@.contains(n) <==> modified_line_set(diff.spec_bytes()).contains(n as int),
            None => r@ == Set::<usize>::empty(),
        },
{
    match output {
        Some(diff) => modified_lines_from_diff(diff),
        None => HashSet::new(),
    }
}

} // verus!
