//! Framing of requests: deciding, from the bytes read so far, whether a
//! complete request has arrived and how many bytes it spans. A request is
//! complete once its head — everything up to the first blank line — and as
//! many body bytes as the head's Content-Length header declares have
//! arrived. The socket reads themselves stand outside; the decision is
//! verified here.

use vstd::prelude::*;

verus! {

/// Whether the four bytes at `i` are the blank line ending a request head.
pub open spec fn head_end_at(b: Seq<u8>, i: int) -> bool {
    &&& 0 <= i
    &&& i + 4 <= b.len()
    &&& b[i] == 13
    &&& b[i + 1] == 10
    &&& b[i + 2] == 13
    &&& b[i + 3] == 10
}

/// The position of the first blank line at or after `k`, if any.
pub open spec fn first_head_end_from(b: Seq<u8>, k: int) -> Option<int>
    decreases b.len() - k,
{
    if k + 4 > b.len() {
        None
    } else if head_end_at(b, k) {
        Some(k)
    } else {
        first_head_end_from(b, k + 1)
    }
}

/// A scan that found no blank line before `i` settles the search there.
proof fn lemma_head_end_scan(b: Seq<u8>, lo: int, i: int)
    requires
        0 <= lo <= i,
        forall|q: int| lo <= q < i ==> !head_end_at(b, q),
    ensures
        i + 4 > b.len() ==> first_head_end_from(b, lo) is None,
        i + 4 <= b.len() && head_end_at(b, i) ==> first_head_end_from(b, lo) == Some(i),
    decreases i - lo,
{
    if lo < i {
        lemma_head_end_scan(b, lo + 1, i);
    }
}

/// Finds the first blank line of the request head, if it has arrived.
pub fn find_head_end(data: &Vec<u8>) -> (r: Option<usize>)
    ensures
        match r {
            Some(e) => first_head_end_from(data@, 0) == Some(e as int) && e + 4 <= data@.len(),
            None => first_head_end_from(data@, 0) is None,
        },
{
    let n = data.len();
    let mut i: usize = 0;
    while i <= n && n - i >= 4
        invariant
            n == data@.len(),
            i <= n,
            forall|q: int| 0 <= q < i ==> !head_end_at(data@, q),
        decreases n - i,
    {
        if data[i] == 13 && data[i + 1] == 10 && data[i + 2] == 13 && data[i + 3] == 10 {
            proof {
                lemma_head_end_scan(data@, 0, i as int);
            }
            return Some(i);
        }
        proof {
            assert(!head_end_at(data@, i as int));
        }
        i = i + 1;
    }
    proof {
        lemma_head_end_scan(data@, 0, i as int);
    }
    None
}

/// Whether a CRLF stands at `q`.
pub open spec fn crlf_at(b: Seq<u8>, q: int) -> bool {
    0 <= q && q + 2 <= b.len() && b[q] == 13 && b[q + 1] == 10
}

/// The position right after the current line: the first CRLF at or after
/// `k`, or the end when the line runs to it.
pub open spec fn line_end_from(b: Seq<u8>, k: int) -> int
    decreases b.len() - k,
{
    if k + 2 > b.len() {
        b.len() as int
    } else if crlf_at(b, k) {
        k
    } else {
        line_end_from(b, k + 1)
    }
}

/// A scan that found no CRLF before `i` settles the line end there.
proof fn lemma_line_end_scan(b: Seq<u8>, lo: int, i: int)
    requires
        0 <= lo <= i,
        forall|q: int| lo <= q < i ==> !(#[trigger] crlf_at(b, q)),
    ensures
        i + 2 > b.len() ==> line_end_from(b, lo) == b.len(),
        crlf_at(b, i) ==> line_end_from(b, lo) == i,
    decreases i - lo,
{
    if lo < i {
        lemma_line_end_scan(b, lo + 1, i);
    }
}

/// The position of the first colon at or after `k`, if any.
pub open spec fn first_colon_from(b: Seq<u8>, k: int) -> Option<int>
    decreases b.len() - k,
{
    if k >= b.len() {
        None
    } else if b[k] == 58 {
        Some(k)
    } else {
        first_colon_from(b, k + 1)
    }
}

/// A scan that found no colon before `i` settles the search there.
proof fn lemma_colon_scan(b: Seq<u8>, lo: int, i: int)
    requires
        0 <= lo <= i,
        forall|q: int| lo <= q < i ==> b[q] != 58,
    ensures
        i >= b.len() ==> first_colon_from(b, lo) is None,
        i < b.len() && b[i] == 58 ==> first_colon_from(b, lo) == Some(i),
    decreases i - lo,
{
    if lo < i {
        lemma_colon_scan(b, lo + 1, i);
    }
}

/// ASCII lower-casing of one byte.
pub open spec fn lower_byte(c: u8) -> u8 {
    if 65 <= c <= 90 {
        (c + 32) as u8
    } else {
        c
    }
}

/// The bytes of the header name `content-length`, in lower case.
pub open spec fn content_length_name() -> Seq<u8> {
    seq![99u8, 111u8, 110u8, 116u8, 101u8, 110u8, 116u8, 45u8, 108u8, 101u8, 110u8, 103u8, 116u8, 104u8]
}

/// Where a header line names Content-Length (ASCII-case-insensitively),
/// the position of its colon.
pub open spec fn cl_split(line: Seq<u8>) -> Option<int> {
    match first_colon_from(line, 0) {
        Some(c) => if 0 <= c && Seq::new(c as nat, |i: int| lower_byte(line[i]))
            == content_length_name() {
            Some(c)
        } else {
            None
        },
        None => None,
    }
}

/// Whether `c` is an ASCII space or tab.
pub open spec fn is_blank(c: u8) -> bool {
    c == 32 || c == 9
}

/// `s` with spaces and tabs stripped from both ends.
pub open spec fn trimmed_bytes(s: Seq<u8>) -> Seq<u8>
    decreases s.len(),
{
    if s.len() == 0 {
        s
    } else if is_blank(s[0]) {
        trimmed_bytes(s.drop_first())
    } else if is_blank(s[s.len() - 1]) {
        trimmed_bytes(s.drop_last())
    } else {
        s
    }
}

/// The trimmed value is the subrange between the outermost non-blank bytes.
proof fn lemma_trimmed_bytes_range(s: Seq<u8>, lo: int, hi: int)
    requires
        0 <= lo <= hi <= s.len(),
        forall|j: int| 0 <= j < lo ==> is_blank(#[trigger] s[j]),
        forall|j: int| hi <= j < s.len() ==> is_blank(#[trigger] s[j]),
        lo < hi ==> !is_blank(s[lo]) && !is_blank(s[hi - 1]),
    ensures
        trimmed_bytes(s) == s.subrange(lo, hi),
    decreases s.len(),
{
    if s.len() == 0 {
        assert(s.subrange(lo, hi) =~= s);
    } else if is_blank(s[0]) {
        if lo == hi {
            lemma_trimmed_bytes_range(s.drop_first(), 0, 0);
            assert(s.subrange(lo, hi) =~= s.drop_first().subrange(0, 0));
        } else {
            assert(lo >= 1);
            assert(forall|j: int| 0 <= j < lo - 1 ==> is_blank(#[trigger] s.drop_first()[j]));
            assert(forall|j: int|
                hi - 1 <= j < s.len() - 1 ==> is_blank(#[trigger] s.drop_first()[j]));
            lemma_trimmed_bytes_range(s.drop_first(), lo - 1, hi - 1);
            assert(s.subrange(lo, hi) =~= s.drop_first().subrange(lo - 1, hi - 1));
        }
    } else if is_blank(s[s.len() - 1]) {
        assert(lo == 0);
        assert(lo < hi);
        assert(hi < s.len());
        assert(forall|j: int| hi <= j < s.len() - 1 ==> is_blank(#[trigger] s.drop_last()[j]));
        lemma_trimmed_bytes_range(s.drop_last(), lo, hi);
        assert(s.subrange(lo, hi) =~= s.drop_last().subrange(lo, hi));
    } else {
        assert(lo == 0);
        assert(hi == s.len());
        assert(s.subrange(lo, hi) =~= s);
    }
}

/// Whether `c` is an ASCII decimal digit.
pub open spec fn is_digit(c: u8) -> bool {
    48 <= c <= 57
}

/// Whether `s` is one or more decimal digits.
pub open spec fn all_digits(s: Seq<u8>) -> bool {
    s.len() > 0 && forall|i: int| 0 <= i < s.len() ==> is_digit(#[trigger] s[i])
}

/// The number the digit bytes spell.
pub open spec fn digits_val(s: Seq<u8>) -> int
    decreases s.len(),
{
    if s.len() == 0 {
        0
    } else {
        digits_val(s.drop_last()) * 10 + (s.last() - 48)
    }
}

/// A header value read as a byte count: its trimmed digits, when they are
/// digits and the count fits the machine; 0 otherwise.
pub open spec fn parsed_length(value: Seq<u8>) -> int {
    let v = trimmed_bytes(value);
    if all_digits(v) && digits_val(v) <= usize::MAX as int {
        digits_val(v)
    } else {
        0
    }
}

/// The byte count the head declares: the value of its first Content-Length
/// header, read from the line after `pos`; 0 when no such header stands.
pub open spec fn declared_from(head: Seq<u8>, pos: int) -> int
    decreases head.len() - pos,
{
    if pos >= head.len() {
        0
    } else {
        let e0 = line_end_from(head, pos);
        let e = if e0 < pos {
            pos
        } else if e0 > head.len() {
            head.len() as int
        } else {
            e0
        };
        let line = head.subrange(pos, e);
        match cl_split(line) {
            Some(c) => parsed_length(line.subrange(c + 1, line.len() as int)),
            None => if e + 2 <= head.len() {
                declared_from(head, e + 2)
            } else {
                0
            },
        }
    }
}

/// The byte count the whole head declares.
pub open spec fn declared_length(head: Seq<u8>) -> int {
    declared_from(head, 0)
}

/// How many bytes the request at the start of `b` spans: its head, the
/// blank line, and as many body bytes as the head declares. Nothing while
/// the head has not fully arrived.
pub open spec fn frame_spec(b: Seq<u8>) -> Option<int> {
    match first_head_end_from(b, 0) {
        Some(e) => Some(e + 4 + declared_length(b.take(e))),
        None => None,
    }
}

/// Copies `v[lo..hi]`.
fn copy_range(v: &Vec<u8>, lo: usize, hi: usize) -> (r: Vec<u8>)
    requires
        lo <= hi <= v@.len(),
    ensures
        r@ == v@.subrange(lo as int, hi as int),
{
    let mut out: Vec<u8> = Vec::new();
    let mut i: usize = lo;
    while i < hi
        invariant
            lo <= i <= hi <= v@.len(),
            out@ =~= v@.subrange(lo as int, i as int),
        decreases hi - i,
    {
        out.push(v[i]);
        proof {
            assert(out@ =~= v@.subrange(lo as int, i as int + 1));
        }
        i = i + 1;
    }
    out
}

/// The byte of `content-length` at position `i`.
fn cl_name_byte(i: usize) -> (c: u8)
    requires
        i < 14,
    ensures
        c == content_length_name()[i as int],
{
    if i == 0 {
        99
    } else if i == 1 {
        111
    } else if i == 2 {
        110
    } else if i == 3 {
        116
    } else if i == 4 {
        101
    } else if i == 5 {
        110
    } else if i == 6 {
        116
    } else if i == 7 {
        45
    } else if i == 8 {
        108
    } else if i == 9 {
        101
    } else if i == 10 {
        110
    } else if i == 11 {
        103
    } else if i == 12 {
        116
    } else {
        104
    }
}

/// ASCII lower-casing of one byte.
fn lower_byte_exec(c: u8) -> (r: u8)
    ensures
        r == lower_byte(c),
{
    if 65 <= c && c <= 90 {
        c + 32
    } else {
        c
    }
}

/// Where this header line names Content-Length, the position of its colon.
fn cl_split_exec(line: &Vec<u8>) -> (r: Option<usize>)
    ensures
        match r {
            Some(c) => cl_split(line@) == Some(c as int) && c < line@.len(),
            None => cl_split(line@) is None,
        },
{
    let n = line.len();
    let mut i: usize = 0;
    while i < n
        invariant
            n == line@.len(),
            i <= n,
            forall|q: int| 0 <= q < i ==> line@[q] != 58,
        decreases n - i,
    {
        if line[i] == 58 {
            proof {
                lemma_colon_scan(line@, 0, i as int);
            }
            if i != 14 {
                proof {
                    assert(Seq::new(i as nat, |j: int| lower_byte(line@[j])).len() != 14);
                }
                return None;
            }
            let mut j: usize = 0;
            while j < 14
                invariant
                    n == line@.len(),
                    i < n,
                    i == 14,
                    first_colon_from(line@, 0) == Some(14int),
                    j <= 14,
                    forall|q: int|
                        0 <= q < j ==> lower_byte(line@[q]) == content_length_name()[q],
                decreases 14 - j,
            {
                let lowered = lower_byte_exec(line[j]);
                if lowered != cl_name_byte(j) {
                    proof {
                        assert(Seq::new(14nat, |q: int| lower_byte(line@[q]))[j as int]
                            != content_length_name()[j as int]);
                    }
                    return None;
                }
                j = j + 1;
            }
            proof {
                assert(Seq::new(14nat, |q: int| lower_byte(line@[q])) =~= content_length_name());
            }
            return Some(i);
        }
        i = i + 1;
    }
    proof {
        lemma_colon_scan(line@, 0, n as int);
    }
    None
}

/// Reads a header value as a byte count: its trimmed digits when they are
/// digits and fit the machine, 0 otherwise.
fn parsed_length_exec(value: &Vec<u8>) -> (r: usize)
    ensures
        r as int == parsed_length(value@),
{
    let n = value.len();
    let mut lo: usize = 0;
    let mut lo_done = false;
    while !lo_done
        invariant
            n == value@.len(),
            lo <= n,
            forall|j: int| 0 <= j < lo ==> is_blank(#[trigger] value@[j]),
            lo_done ==> (lo == n || !is_blank(value@[lo as int])),
        decreases 2 * (n - lo) + (if lo_done { 0int } else { 1 }),
    {
        if lo < n {
            if value[lo] == 32 || value[lo] == 9 {
                lo = lo + 1;
            } else {
                lo_done = true;
            }
        } else {
            lo_done = true;
        }
    }
    if lo == n {
        proof {
            lemma_trimmed_bytes_range(value@, 0, 0);
            assert(value@.subrange(0, 0).len() == 0);
        }
        return 0;
    }
    let mut hi: usize = n;
    let mut hi_done = false;
    while !hi_done
        invariant
            n == value@.len(),
            lo < n,
            !is_blank(value@[lo as int]),
            lo < hi <= n,
            forall|j: int| hi <= j < n ==> is_blank(#[trigger] value@[j]),
            hi_done ==> !is_blank(value@[hi - 1]),
        decreases 2 * hi + (if hi_done { 0int } else { 1 }),
    {
        if value[hi - 1] == 32 || value[hi - 1] == 9 {
            hi = hi - 1;
        } else {
            hi_done = true;
        }
    }
    proof {
        lemma_trimmed_bytes_range(value@, lo as int, hi as int);
    }
    let ghost v = value@.subrange(lo as int, hi as int);
    let mut acc: u128 = 0;
    let mut over = false;
    let mut i: usize = lo;
    while i < hi
        invariant
            n == value@.len(),
            lo <= i <= hi <= n,
            v == value@.subrange(lo as int, hi as int),
            trimmed_bytes(value@) == v,
            v.len() == hi - lo,
            forall|j: int| lo <= j < i ==> is_digit(#[trigger] value@[j]),
            !over ==> acc as int == digits_val(v.take(i - lo)) && acc <= usize::MAX as u128,
            over ==> digits_val(v.take(i - lo)) > usize::MAX as int,
        decreases hi - i,
    {
        let c = value[i];
        if !(48 <= c && c <= 57) {
            proof {
                assert(v[i - lo] == value@[i as int]);
                assert(!all_digits(v));
            }
            return 0;
        }
        proof {
            assert(v.take(i - lo + 1).drop_last() =~= v.take(i - lo));
            assert(v.take(i - lo + 1).last() == value@[i as int]);
        }
        if !over {
            let next: u128 = acc * 10 + ((c - 48) as u128);
            if next > usize::MAX as u128 {
                over = true;
            } else {
                acc = next;
            }
        }
        i = i + 1;
    }
    proof {
        assert(v.take(hi - lo) =~= v);
        assert(all_digits(v));
    }
    if over {
        0
    } else {
        acc as usize
    }
}

/// Finds the end of the line that starts at `pos`.
fn line_end_exec(head: &Vec<u8>, pos: usize) -> (e: usize)
    requires
        pos <= head@.len(),
    ensures
        e as int == line_end_from(head@, pos as int),
        pos <= e <= head@.len(),
{
    let n = head.len();
    let mut i: usize = pos;
    while i <= n && n - i >= 2
        invariant
            n == head@.len(),
            pos <= i <= n,
            forall|q: int| pos <= q < i ==> !(#[trigger] crlf_at(head@, q)),
        decreases n - i,
    {
        if head[i] == 13 && head[i + 1] == 10 {
            proof {
                lemma_line_end_scan(head@, pos as int, i as int);
            }
            return i;
        }
        proof {
            assert(!crlf_at(head@, i as int));
        }
        i = i + 1;
    }
    proof {
        lemma_line_end_scan(head@, pos as int, i as int);
    }
    n
}

/// Reads the byte count a request head declares: the value of its first
/// Content-Length header, or 0 when none stands.
pub fn declared_length_of(head: &Vec<u8>) -> (r: usize)
    ensures
        r as int == declared_length(head@),
{
    let n = head.len();
    let mut pos: usize = 0;
    while pos < n
        invariant
            n == head@.len(),
            pos <= n,
            declared_length(head@) == declared_from(head@, pos as int),
        decreases n - pos,
    {
        let e = line_end_exec(head, pos);
        let line = copy_range(head, pos, e);
        match cl_split_exec(&line) {
            Some(c) => {
                let value = copy_range(&line, c + 1, line.len());
                let r = parsed_length_exec(&value);
                proof {
                    assert(value@ =~= line@.subrange(c as int + 1, line@.len() as int));
                }
                return r;
            },
            None => {
                if n - e >= 2 {
                    pos = e + 2;
                } else {
                    return 0;
                }
            },
        }
    }
    0
}

/// From the bytes read so far: nothing while the request head has not
/// fully arrived; else the total number of bytes the request spans — its
/// head, the blank line, and as many body bytes as the head declares.
pub fn request_span(data: &Vec<u8>) -> (r: Option<u128>)
    ensures
        match r {
            Some(w) => frame_spec(data@) == Some(w as int),
            None => frame_spec(data@) is None,
        },
{
    let e = match find_head_end(data) {
        Some(e) => e,
        None => {
            return None;
        },
    };
    let head = copy_range(data, 0, e);
    let declared = declared_length_of(&head);
    Some(e as u128 + 4 + declared as u128)
}

} // verus!
