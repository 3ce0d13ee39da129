//! Resolving a branch to a commit over git's smart HTTP protocol.
//!
//! A `GET` of `<repo>/info/refs?service=git-upload-pack` answers with the
//! repository's ref advertisement: a stream of pkt-lines, each four hex
//! digits giving the line's whole length followed by its payload, with
//! `0000` as a flush. A ref line's payload is a 40-digit object id, a space
//! and the ref name; the first one also carries the capabilities after a NUL
//! byte, and each may end in a newline. The fetch itself is I/O and happens
//! elsewhere; reading the answer happens here.

use crate::text::{chars_of, concat_str, has_prefix, push_char};
use vstd::prelude::*;
use vstd::string::StringSliceAdditionalSpecFns;

verus! {

/// The value of an ASCII hex digit of either case.
pub open spec fn hex_value(b: u8) -> Option<nat> {
    if 48 <= b <= 57 {
        Some((b - 48) as nat)
    } else if 97 <= b <= 102 {
        Some((b - 87) as nat)
    } else if 65 <= b <= 70 {
        Some((b - 55) as nat)
    } else {
        None
    }
}

/// The length announced by the pkt-line starting at `pos`.
pub open spec fn pkt_len(bytes: Seq<u8>, pos: int) -> Option<nat> {
    match (hex_value(bytes[pos]), hex_value(bytes[pos + 1]), hex_value(bytes[pos + 2]), hex_value(bytes[pos + 3])) {
        (Some(a), Some(b), Some(c), Some(d)) => Some(a * 4096 + b * 256 + c * 16 + d),
        _ => None,
    }
}

/// A digit of an object id as git writes it: lower-case hex.
pub open spec fn is_oid_digit(b: u8) -> bool {
    (48 <= b <= 57) || (97 <= b <= 102)
}

/// A payload without its trailing newline, if it has one.
pub open spec fn chomp(p: Seq<u8>) -> Seq<u8> {
    if p.len() > 0 && p.last() == 10 {
        p.drop_last()
    } else {
        p
    }
}

/// Where the ref name that starts at `i` ends: at the first NUL byte from
/// `i` on, else at the end.
pub open spec fn name_end(p: Seq<u8>, i: int) -> int
    decreases p.len() - i,
{
    if i >= p.len() {
        p.len() as int
    } else if p[i] == 0 {
        i
    } else {
        name_end(p, i + 1)
    }
}

/// The object id and ref name a ref line's payload advertises.
pub open spec fn ref_line(payload: Seq<u8>) -> Option<(Seq<u8>, Seq<u8>)> {
    let p = chomp(payload);
    if p.len() > 41 && p[40] == 32 && (forall|j: int| 0 <= j < 40 ==> #[trigger] is_oid_digit(p[j])) {
        Some((p.take(40), p.subrange(41, name_end(p, 41))))
    } else {
        None
    }
}

/// The bytes of `refs/heads/`.
pub open spec fn heads_prefix() -> Seq<u8> {
    seq![114u8, 101, 102, 115, 47, 104, 101, 97, 100, 115, 47]
}

/// The object id advertised for ref `want` by the first ref line naming it,
/// reading from `pos` on. None when no line names it, or when the stream
/// breaks off or is malformed before one does.
pub open spec fn advertised_from(bytes: Seq<u8>, pos: int, want: Seq<u8>) -> Option<Seq<u8>>
    decreases bytes.len() - pos,
{
    if pos < 0 || pos + 4 > bytes.len() {
        None
    } else {
        match pkt_len(bytes, pos) {
            None => None,
            Some(n) => if n == 0 {
                advertised_from(bytes, pos + 4, want)
            } else if n < 4 || pos + n > bytes.len() {
                None
            } else {
                match ref_line(bytes.subrange(pos + 4, pos + n)) {
                    Some(r) => if r.1 == want {
                        Some(r.0)
                    } else {
                        advertised_from(bytes, pos + n, want)
                    },
                    None => advertised_from(bytes, pos + n, want),
                }
            },
        }
    }
}

/// The characters of ASCII bytes.
pub open spec fn ascii_text(b: Seq<u8>) -> Seq<char> {
    b.map_values(|x: u8| x as char)
}

fn hex_digit(b: u8) -> (r: Option<usize>)
    ensures
        match hex_value(b) {
            Some(v) => r == Some(v as usize),
            None => r is None,
        },
{
    if 48 <= b && b <= 57 {
        Some((b - 48) as usize)
    } else if 97 <= b && b <= 102 {
        Some((b - 87) as usize)
    } else if 65 <= b && b <= 70 {
        Some((b - 55) as usize)
    } else {
        None
    }
}

/// The length announced by the pkt-line at `pos`.
fn pkt_len_at(bytes: &[u8], pos: usize) -> (r: Option<usize>)
    requires
        pos + 4 <= bytes@.len(),
    ensures
        match pkt_len(bytes@, pos as int) {
            Some(n) => r == Some(n as usize),
            None => r is None,
        },
{
    match (hex_digit(bytes[pos]), hex_digit(bytes[pos + 1]), hex_digit(bytes[pos + 2]), hex_digit(bytes[pos + 3])) {
        (Some(a), Some(b), Some(c), Some(d)) => Some(a * 4096 + b * 256 + c * 16 + d),
        _ => None,
    }
}

/// Where the ref name of the ref line in `bytes[start..end]` lies, if the
/// payload is a ref line.
fn ref_line_at(bytes: &[u8], start: usize, end: usize) -> (r: Option<(usize, usize)>)
    requires
        start <= end <= bytes@.len(),
    ensures
        match ref_line(bytes@.subrange(start as int, end as int)) {
            Some(l) => r matches Some((from, to)) && start + 41 <= from <= to <= end && bytes@.subrange(
                from as int,
                to as int,
            ) == l.1 && bytes@.subrange(start as int, start + 40) == l.0,
            None => r is None,
        },
{
    let ghost payload = bytes@.subrange(start as int, end as int);
    let stop = if end > start && bytes[end - 1] == 10 {
        end - 1
    } else {
        end
    };
    let ghost p = bytes@.subrange(start as int, stop as int);
    assert(chomp(payload) =~= p);
    if stop - start <= 41 || bytes[start + 40] != 32 {
        return None;
    }
    let mut j: usize = 0;
    while j < 40
        invariant
            j <= 40,
            start + 41 < stop <= end <= bytes@.len(),
            p == bytes@.subrange(start as int, stop as int),
            chomp(payload) == p,
            payload == bytes@.subrange(start as int, end as int),
            p[40] == 32,
            forall|i: int| 0 <= i < j ==> #[trigger] is_oid_digit(p[i]),
        decreases 40 - j,
    {
        let b = bytes[start + j];
        if !((48 <= b && b <= 57) || (97 <= b && b <= 102)) {
            assert(!is_oid_digit(p[j as int]));
            return None;
        }
        j += 1;
    }
    let from = start + 41;
    let mut to = from;
    while to < stop && bytes[to] != 0
        invariant
            from <= to <= stop,
            start + 41 == from,
            start + 41 < stop <= end <= bytes@.len(),
            p == bytes@.subrange(start as int, stop as int),
            chomp(payload) == p,
            payload == bytes@.subrange(start as int, end as int),
            p[40] == 32,
            forall|i: int| 0 <= i < 40 ==> #[trigger] is_oid_digit(p[i]),
            name_end(p, (to - start) as int) == name_end(p, 41),
        decreases stop - to,
    {
        to += 1;
    }
    assert(name_end(p, (to - start) as int) == (to - start) as int);
    assert(p.subrange(41, (to - start) as int) =~= bytes@.subrange(from as int, to as int));
    assert(p.take(40) =~= bytes@.subrange(start as int, start + 40));
    Some((from, to))
}

/// Whether `bytes[from..to]` holds exactly `want`.
fn range_is(bytes: &[u8], from: usize, to: usize, want: &Vec<u8>) -> (b: bool)
    requires
        from <= to <= bytes@.len(),
    ensures
        b == (bytes@.subrange(from as int, to as int) == want@),
{
    if to - from != want.len() {
        return false;
    }
    let mut i: usize = 0;
    while i < want.len()
        invariant
            from <= to <= bytes@.len(),
            to - from == want@.len(),
            i <= want@.len(),
            forall|k: int| 0 <= k < i ==> bytes@[from + k] == want@[k],
        decreases want.len() - i,
    {
        if bytes[from + i] != want[i] {
            assert(bytes@.subrange(from as int, to as int)[i as int] != want@[i as int]);
            return false;
        }
        i += 1;
    }
    assert(bytes@.subrange(from as int, to as int) =~= want@);
    true
}

/// The full name of a branch's ref, as bytes.
fn heads_ref(branch: &str) -> (v: Vec<u8>)
    ensures
        v@ == heads_prefix() + branch.spec_bytes(),
{
    let mut v: Vec<u8> = vec![114u8, 101, 102, 115, 47, 104, 101, 97, 100, 115, 47];
    let b = branch.as_bytes();
    let mut i: usize = 0;
    while i < b.len()
        invariant
            i <= b@.len(),
            b@ == branch.spec_bytes(),
            v@ == heads_prefix() + b@.take(i as int),
        decreases b.len() - i,
    {
        v.push(b[i]);
        i += 1;
        assert(b@.take(i as int) =~= b@.take(i - 1).push(b@[i - 1]));
    }
    assert(b@.take(b@.len() as int) =~= b@);
    v
}

/// The text of the 40 bytes at `start`.
fn oid_text(bytes: &[u8], start: usize) -> (s: String)
    requires
        start + 40 <= bytes@.len(),
    ensures
        s@ == ascii_text(bytes@.subrange(start as int, start + 40)),
{
    let len = bytes.len();
    let mut s = String::new();
    let mut i: usize = 0;
    while i < 40
        invariant
            i <= 40,
            len == bytes@.len(),
            start + 40 <= bytes@.len(),
            s@ == ascii_text(bytes@.subrange(start as int, start + i)),
        decreases 40 - i,
    {
        let c = bytes[start + i] as char;
        push_char(&mut s, c);
        i += 1;
        assert(ascii_text(bytes@.subrange(start as int, start + i)) =~= ascii_text(
            bytes@.subrange(start as int, start + i - 1),
        ).push(c));
    }
    s
}

/// The commit that `branch` points at in a ref advertisement, as the
/// 40-digit object id. None when the advertisement does not name the branch
/// before it ends or stops making sense.
pub fn advertised_commit(advertisement: &[u8], branch: &str) -> (r: Option<String>)
    ensures
        match advertised_from(advertisement@, 0, heads_prefix() + branch.spec_bytes()) {
            Some(oid) => r matches Some(s) && s@ == ascii_text(oid),
            None => r is None,
        },
{
    let want = heads_ref(branch);
    let ghost w = want@;
    let bytes = advertisement;
    let mut pos: usize = 0;
    while bytes.len() - pos >= 4
        invariant
            pos <= bytes@.len(),
            w == want@,
            w == heads_prefix() + branch.spec_bytes(),
            bytes@ == advertisement@,
            advertised_from(bytes@, pos as int, w) == advertised_from(bytes@, 0, w),
        decreases bytes.len() - pos,
    {
        let n = match pkt_len_at(bytes, pos) {
            Some(n) => n,
            None => {
                return None;
            },
        };
        if n == 0 {
            pos = pos + 4;
        } else if n < 4 || n > bytes.len() - pos {
            return None;
        } else {
            let line = ref_line_at(bytes, pos + 4, pos + n);
            if let Some((from, to)) = line {
                if range_is(bytes, from, to, &want) {
                    return Some(oid_text(bytes, pos + 4));
                }
            }
            pos = pos + n;
        }
    }
    None
}

/// Where a repository's ref advertisement is fetched from. Only an HTTP(S)
/// repository can be asked: for any other there is none.
pub fn info_refs_url(repo: &str) -> (u: Option<String>)
    ensures
        u is Some <==> ("https://"@.is_prefix_of(repo@) || "http://"@.is_prefix_of(repo@)),
        u matches Some(s) ==> s@ == repo@ + "/info/refs?service=git-upload-pack"@,
{
    let v = chars_of(repo);
    if has_prefix(&v, "https://") || has_prefix(&v, "http://") {
        Some(concat_str(repo, "/info/refs?service=git-upload-pack"))
    } else {
        None
    }
}

} // verus!
