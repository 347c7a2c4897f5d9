//! Deterministic naming scheme: maps a wiki page title and namespace to the
//! file path and branch name used in the output repository.
//!
//! File paths double every underscore, turn spaces into underscores, then
//! percent-encode every byte outside the unreserved set (ASCII alphanumerics
//! and `-`, `.`, `_`, `~`) as `%XX` with uppercase hex digits.  Titles in the
//! default namespace go under `Main/` with extension `.md`; other namespaces
//! turn the first encoded colon (`%3A`) into a path separator, and every
//! namespace but the file namespace forces the extension `.md`.
//!
//! Branch names prepend `Main:` to default-namespace titles, percent-encode
//! the whole string, and additionally replace every `.` by `%2E`, so a branch
//! name never contains a literal dot.

use vstd::prelude::*;
use vstd::string::StringSliceAdditionalSpecFns;

verus! {

/// True when percent-encoding keeps `b` as it is: ASCII alphanumerics and
/// `-`, `.`, `_`, `~`.
pub open spec fn is_unreserved_byte(b: u8) -> bool {
    (0x41u8 <= b && b <= 0x5Au8) || (0x61u8 <= b && b <= 0x7Au8) || (0x30u8 <= b && b <= 0x39u8) || b == 0x2Du8
        || b == 0x2Eu8 || b == 0x5Fu8 || b == 0x7Eu8
}

/// Uppercase hexadecimal digit for a value below 16.
pub open spec fn hex_digit(n: u8) -> u8 {
    if n < 10 {
        (0x30u8 + n) as u8
    } else {
        (0x41u8 + (n - 10)) as u8
    }
}

/// Percent-encoding of one byte: unreserved bytes stand for themselves,
/// every other byte becomes `%XX`.
pub open spec fn pct_byte(b: u8) -> Seq<u8> {
    if is_unreserved_byte(b) {
        seq![b]
    } else {
        seq![0x25u8, hex_digit(b / 16), hex_digit(b % 16)]
    }
}

/// One byte of a title on its way into a file path: underscores are doubled
/// and spaces become underscores before percent-encoding.
pub open spec fn file_title_byte(b: u8) -> Seq<u8> {
    if b == 0x5Fu8 {
        seq![0x5Fu8, 0x5Fu8]
    } else if b == 0x20u8 {
        seq![0x5Fu8]
    } else {
        pct_byte(b)
    }
}

/// One byte of a title on its way into a branch name: percent-encoded, with
/// the unreserved `.` forced to `%2E` as well.
pub open spec fn branch_byte(b: u8) -> Seq<u8> {
    if b == 0x2Eu8 {
        seq![0x25u8, 0x32u8, 0x45u8]
    } else {
        pct_byte(b)
    }
}

/// Concatenation of `file_title_byte` applied to each byte of `s`, in order.
pub open spec fn encoded_file_title(s: Seq<u8>) -> Seq<u8>
    decreases s.len(),
{
    if s.len() == 0 {
        Seq::empty()
    } else {
        file_title_byte(s[0]) + encoded_file_title(s.drop_first())
    }
}

/// Concatenation of `branch_byte` applied to each byte of `s`, in order.
pub open spec fn encoded_branch(s: Seq<u8>) -> Seq<u8>
    decreases s.len(),
{
    if s.len() == 0 {
        Seq::empty()
    } else {
        branch_byte(s[0]) + encoded_branch(s.drop_first())
    }
}

pub proof fn lemma_encoded_file_title_snoc(s: Seq<u8>, b: u8)
    ensures
        encoded_file_title(s.push(b)) == encoded_file_title(s) + file_title_byte(b),
    decreases s.len(),
{
    if s.len() == 0 {
        assert(s =~= Seq::<u8>::empty());
        assert(s.push(b)[0] == b);
        assert(s.push(b).drop_first() =~= Seq::<u8>::empty());
        assert(encoded_file_title(Seq::<u8>::empty()) == Seq::<u8>::empty());
        assert(encoded_file_title(s.push(b)) =~= encoded_file_title(s) + file_title_byte(b));
    } else {
        assert(s.push(b)[0] == s[0]);
        assert(s.push(b).drop_first() =~= s.drop_first().push(b));
        lemma_encoded_file_title_snoc(s.drop_first(), b);
        assert(encoded_file_title(s.push(b)) =~= encoded_file_title(s) + file_title_byte(b));
    }
}

pub proof fn lemma_encoded_branch_snoc(s: Seq<u8>, b: u8)
    ensures
        encoded_branch(s.push(b)) == encoded_branch(s) + branch_byte(b),
    decreases s.len(),
{
    if s.len() == 0 {
        assert(s =~= Seq::<u8>::empty());
        assert(s.push(b)[0] == b);
        assert(s.push(b).drop_first() =~= Seq::<u8>::empty());
        assert(encoded_branch(Seq::<u8>::empty()) == Seq::<u8>::empty());
        assert(encoded_branch(s.push(b)) =~= encoded_branch(s) + branch_byte(b));
    } else {
        assert(s.push(b)[0] == s[0]);
        assert(s.push(b).drop_first() =~= s.drop_first().push(b));
        lemma_encoded_branch_snoc(s.drop_first(), b);
        assert(encoded_branch(s.push(b)) =~= encoded_branch(s) + branch_byte(b));
    }
}

pub proof fn lemma_encoded_branch_append(s1: Seq<u8>, s2: Seq<u8>)
    ensures
        encoded_branch(s1 + s2) == encoded_branch(s1) + encoded_branch(s2),
    decreases s2.len(),
{
    if s2.len() == 0 {
        assert(s1 + s2 =~= s1);
        assert(encoded_branch(s1 + s2) =~= encoded_branch(s1) + encoded_branch(s2));
    } else {
        lemma_encoded_branch_append(s1, s2.drop_last());
        lemma_encoded_branch_snoc(s1 + s2.drop_last(), s2.last());
        lemma_encoded_branch_snoc(s2.drop_last(), s2.last());
        assert((s1 + s2.drop_last()).push(s2.last()) =~= s1 + s2);
        assert(s2.drop_last().push(s2.last()) =~= s2);
        assert(encoded_branch(s1 + s2) =~= encoded_branch(s1) + encoded_branch(s2));
    }
}

/// Position of the first encoded colon in `s`, if any.
pub open spec fn find_pct3a(s: Seq<u8>) -> Option<int>
    decreases s.len(),
{
    if s.len() < 3 {
        None
    } else if s[0] == 0x25u8 && s[1] == 0x33u8 && s[2] == 0x41u8 {
        Some(0int)
    } else {
        match find_pct3a(s.drop_first()) {
            None => None,
            Some(i) => Some(i + 1),
        }
    }
}

/// Position of the last `.` in `s`, if any.
pub open spec fn last_dot(s: Seq<u8>) -> Option<int>
    decreases s.len(),
{
    if s.len() == 0 {
        None
    } else if s[s.len() - 1] == 0x2Eu8 {
        Some(s.len() - 1)
    } else {
        last_dot(s.drop_last())
    }
}

/// A path component with its extension (the part after the last dot, when
/// that dot is not the component's first byte) removed.
pub open spec fn strip_extension(comp: Seq<u8>) -> Seq<u8> {
    match last_dot(comp) {
        Some(d) => if d > 0 {
            comp.subrange(0, d)
        } else {
            comp
        },
        None => comp,
    }
}

pub proof fn lemma_pct_byte_ascii(b: u8)
    ensures
        forall|k: int| 0 <= k < pct_byte(b).len() ==> pct_byte(b)[k] < 0x80,
{
    assert(hex_digit(b / 16) < 0x80);
    assert(hex_digit(b % 16) < 0x80);
}

pub proof fn lemma_encoded_file_title_ascii(s: Seq<u8>)
    ensures
        forall|k: int|
            0 <= k < encoded_file_title(s).len() ==> encoded_file_title(s)[k] < 0x80,
    decreases s.len(),
{
    if s.len() > 0 {
        lemma_encoded_file_title_ascii(s.drop_first());
        lemma_pct_byte_ascii(s[0]);
        let head = file_title_byte(s[0]);
        let tail = encoded_file_title(s.drop_first());
        assert(encoded_file_title(s) == head + tail);
        assert forall|k: int|
            0 <= k < encoded_file_title(s).len() implies encoded_file_title(s)[k] < 0x80 by {
            if k < head.len() {
                assert(encoded_file_title(s)[k] == head[k]);
            } else {
                assert(encoded_file_title(s)[k] == tail[k - head.len()]);
            }
        }
    }
}

pub proof fn lemma_encoded_branch_ascii(s: Seq<u8>)
    ensures
        forall|k: int| 0 <= k < encoded_branch(s).len() ==> encoded_branch(s)[k] < 0x80,
    decreases s.len(),
{
    if s.len() > 0 {
        lemma_encoded_branch_ascii(s.drop_first());
        lemma_pct_byte_ascii(s[0]);
        let head = branch_byte(s[0]);
        let tail = encoded_branch(s.drop_first());
        assert(encoded_branch(s) == head + tail);
        assert forall|k: int| 0 <= k < encoded_branch(s).len() implies encoded_branch(s)[k]
            < 0x80 by {
            if k < head.len() {
                assert(encoded_branch(s)[k] == head[k]);
            } else {
                assert(encoded_branch(s)[k] == tail[k - head.len()]);
            }
        }
    }
}

pub open spec fn main_slash_bytes() -> Seq<u8> {
    seq![0x4Du8, 0x61u8, 0x69u8, 0x6Eu8, 0x2Fu8]
}

pub open spec fn main_colon_bytes() -> Seq<u8> {
    seq![0x4Du8, 0x61u8, 0x69u8, 0x6Eu8, 0x3Au8]
}

pub open spec fn dot_md_bytes() -> Seq<u8> {
    seq![0x2Eu8, 0x6Du8, 0x64u8]
}

/// The file path, as UTF-8 bytes, for a title given as UTF-8 bytes.
pub open spec fn spec_file_name(title: Seq<u8>, namespace: u32) -> Seq<u8> {
    let enc = encoded_file_title(title);
    if namespace == 0 {
        main_slash_bytes() + enc + dot_md_bytes()
    } else {
        match find_pct3a(enc) {
            None => if namespace == 6 {
                enc
            } else {
                strip_extension(enc) + dot_md_bytes()
            },
            Some(i) => {
                let pre = enc.subrange(0, i) + seq![0x2Fu8];
                let comp = enc.subrange(i + 3, enc.len() as int);
                if namespace == 6 {
                    pre + comp
                } else {
                    pre + strip_extension(comp) + dot_md_bytes()
                }
            },
        }
    }
}

pub proof fn lemma_spec_file_name_ascii(title: Seq<u8>, namespace: u32)
    ensures
        forall|k: int|
            0 <= k < spec_file_name(title, namespace).len() ==> spec_file_name(
                title,
                namespace,
            )[k] < 0x80,
{
    lemma_encoded_file_title_ascii(title);
    let enc = encoded_file_title(title);
    let target = spec_file_name(title, namespace);
    if namespace == 0 {
        assert(target == main_slash_bytes() + enc + dot_md_bytes());
        assert forall|k: int| 0 <= k < target.len() implies target[k] < 0x80 by {
            seq_index_cases(main_slash_bytes() + enc, dot_md_bytes(), k);
        }
    } else {
        lemma_find_pct3a_in_range(enc);
        match find_pct3a(enc) {
            None => {
                if namespace != 6 {
                    lemma_last_dot_in_range(enc);
                    assert(forall|k: int|
                        0 <= k < strip_extension(enc).len() ==> strip_extension(enc)[k] < 0x80);
                    assert forall|k: int| 0 <= k < target.len() implies target[k] < 0x80 by {
                        seq_index_cases(strip_extension(enc), dot_md_bytes(), k);
                    }
                }
            },
            Some(i) => {
                let pre = enc.subrange(0, i) + seq![0x2Fu8];
                let comp = enc.subrange(i + 3, enc.len() as int);
                assert(forall|k: int| 0 <= k < pre.len() ==> pre[k] < 0x80);
                assert(forall|k: int| 0 <= k < comp.len() ==> comp[k] < 0x80);
                lemma_last_dot_in_range(comp);
                assert(forall|k: int|
                    0 <= k < strip_extension(comp).len() ==> strip_extension(comp)[k] < 0x80);
                assert forall|k: int| 0 <= k < target.len() implies target[k] < 0x80 by {
                    if namespace == 6 {
                        seq_index_cases(pre, comp, k);
                    } else {
                        seq_index_cases(pre + strip_extension(comp), dot_md_bytes(), k);
                        seq_index_cases(pre, strip_extension(comp), k);
                    }
                }
            },
        }
    }
}

/// Indexing into a concatenation lands in one of the two halves.
proof fn seq_index_cases(a: Seq<u8>, b: Seq<u8>, k: int)
    ensures
        0 <= k < a.len() ==> (a + b)[k] == a[k],
        a.len() <= k < a.len() + b.len() ==> (a + b)[k] == b[k - a.len()],
{
}

/// Every hit of `last_dot` lies inside the sequence.
pub proof fn lemma_last_dot_in_range(s: Seq<u8>)
    ensures
        match last_dot(s) {
            None => true,
            Some(i) => 0 <= i < s.len(),
        },
    decreases s.len(),
{
    if s.len() > 0 && s[s.len() - 1] != 0x2Eu8 {
        lemma_last_dot_in_range(s.drop_last());
    }
}

/// Every hit of `find_pct3a` lies inside the sequence.
pub proof fn lemma_find_pct3a_in_range(s: Seq<u8>)
    ensures
        match find_pct3a(s) {
            None => true,
            Some(i) => 0 <= i && i + 3 <= s.len(),
        },
    decreases s.len(),
{
    if s.len() >= 3 && !(s[0] == 0x25u8 && s[1] == 0x33u8 && s[2] == 0x41u8) {
        lemma_find_pct3a_in_range(s.drop_first());
    }
}

/// The branch name, as UTF-8 bytes, for a title given as UTF-8 bytes.
pub open spec fn spec_branch_name(title: Seq<u8>, namespace: u32) -> Seq<u8> {
    if namespace == 0 {
        encoded_branch(main_colon_bytes() + title)
    } else {
        encoded_branch(title)
    }
}

/// The characters a sequence of ASCII bytes stands for.
pub open spec fn chars_of(s: Seq<u8>) -> Seq<char> {
    s.map_values(|b: u8| b as char)
}

/// Relies on String::from_utf8: a sequence of ASCII bytes decodes to the
/// string of exactly those characters.
#[verifier::external_body]
fn ascii_to_string(v: Vec<u8>) -> (r: String)
    requires
        forall|k: int| 0 <= k < v@.len() ==> v@[k] < 0x80,
    ensures
        r@ == chars_of(v@),
{
    String::from_utf8(v).unwrap()
}

/// Pushes the percent-encoding of `b` onto `out`.
fn push_pct(out: &mut Vec<u8>, b: u8)
    ensures
        final(out)@ == old(out)@ + pct_byte(b),
        forall|k: int| old(out)@.len() <= k < final(out)@.len() ==> final(out)@[k] < 0x80,
{
    let unreserved = (0x41u8 <= b && b <= 0x5Au8) || (0x61u8 <= b && b <= 0x7Au8) || (0x30u8 <= b && b
        <= 0x39u8) || b == 0x2Du8 || b == 0x2Eu8 || b == 0x5Fu8 || b == 0x7Eu8;
    if unreserved {
        out.push(b);
        assert(out@ =~= old(out)@ + pct_byte(b));
    } else {
        out.push(0x25u8);
        let hi = b / 16;
        let lo = b % 16;
        let hi_d = if hi < 10 {
            0x30u8 + hi
        } else {
            0x41u8 + (hi - 10)
        };
        let lo_d = if lo < 10 {
            0x30u8 + lo
        } else {
            0x41u8 + (lo - 10)
        };
        out.push(hi_d);
        out.push(lo_d);
        assert(out@ =~= old(out)@ + pct_byte(b));
    }
}

/// Encodes a title's bytes for use in a file path.
fn encode_file_title(bytes: &Vec<u8>) -> (r: Vec<u8>)
    ensures
        r@ == encoded_file_title(bytes@),
        forall|k: int| 0 <= k < r@.len() ==> r@[k] < 0x80,
{
    let mut out: Vec<u8> = Vec::new();
    let mut i: usize = 0;
    while i < bytes.len()
        invariant
            i <= bytes.len(),
            out@ == encoded_file_title(bytes@.subrange(0, i as int)),
            forall|k: int| 0 <= k < out@.len() ==> out@[k] < 0x80,
        decreases bytes.len() - i,
    {
        let b = bytes[i];
        proof {
            lemma_encoded_file_title_snoc(bytes@.subrange(0, i as int), b);
            assert(bytes@.subrange(0, i + 1) =~= bytes@.subrange(0, i as int).push(b));
        }
        if b == 0x5Fu8 {
            out.push(0x5Fu8);
            out.push(0x5Fu8);
            assert(out@ =~= encoded_file_title(bytes@.subrange(0, i + 1)));
        } else if b == 0x20u8 {
            out.push(0x5Fu8);
            assert(out@ =~= encoded_file_title(bytes@.subrange(0, i + 1)));
        } else {
            push_pct(&mut out, b);
            assert(out@ =~= encoded_file_title(bytes@.subrange(0, i + 1)));
        }
        i = i + 1;
    }
    proof {
        assert(bytes@.subrange(0, bytes@.len() as int) =~= bytes@);
    }
    out
}

/// Encodes bytes for use in a branch name.
fn encode_branch(bytes: &Vec<u8>) -> (r: Vec<u8>)
    ensures
        r@ == encoded_branch(bytes@),
        forall|k: int| 0 <= k < r@.len() ==> r@[k] < 0x80,
{
    let mut out: Vec<u8> = Vec::new();
    let mut i: usize = 0;
    while i < bytes.len()
        invariant
            i <= bytes.len(),
            out@ == encoded_branch(bytes@.subrange(0, i as int)),
            forall|k: int| 0 <= k < out@.len() ==> out@[k] < 0x80,
        decreases bytes.len() - i,
    {
        let b = bytes[i];
        proof {
            lemma_encoded_branch_snoc(bytes@.subrange(0, i as int), b);
            assert(bytes@.subrange(0, i + 1) =~= bytes@.subrange(0, i as int).push(b));
        }
        if b == 0x2Eu8 {
            out.push(0x25u8);
            out.push(0x32u8);
            out.push(0x45u8);
            assert(out@ =~= encoded_branch(bytes@.subrange(0, i + 1)));
        } else {
            push_pct(&mut out, b);
            assert(out@ =~= encoded_branch(bytes@.subrange(0, i + 1)));
        }
        i = i + 1;
    }
    proof {
        assert(bytes@.subrange(0, bytes@.len() as int) =~= bytes@);
    }
    out
}

/// Finds the first encoded colon (`%3A`) in `v`.
fn find_encoded_colon(v: &Vec<u8>) -> (r: Option<usize>)
    ensures
        match r {
            None => find_pct3a(v@) is None,
            Some(i) => find_pct3a(v@) == Some(i as int) && i + 3 <= v@.len(),
        },
{
    proof {
        assert(v@.subrange(0, v@.len() as int) =~= v@);
    }
    let mut i: usize = 0;
    while i < v.len()
        invariant
            i <= v.len(),
            find_pct3a(v@) == match find_pct3a(v@.subrange(i as int, v@.len() as int)) {
                None => None::<int>,
                Some(k) => Some(k + i),
            },
        decreases v.len() - i,
    {
        if v.len() - i >= 3 && v[i] == 0x25u8 && v[i + 1] == 0x33u8 && v[i + 2] == 0x41u8 {
            assert(find_pct3a(v@.subrange(i as int, v@.len() as int)) == Some(0int));
            return Some(i);
        }
        proof {
            let tail = v@.subrange(i as int, v@.len() as int);
            assert(tail.drop_first() =~= v@.subrange(i + 1, v@.len() as int));
            if tail.len() < 3 {
                assert(v@.subrange(i + 1, v@.len() as int).len() < 3);
            }
        }
        i = i + 1;
    }
    proof {
        assert(v@.subrange(i as int, v@.len() as int).len() < 3);
    }
    None
}

/// Finds the last `.` in `v`.
fn find_last_dot(v: &Vec<u8>) -> (r: Option<usize>)
    ensures
        match r {
            None => last_dot(v@) is None,
            Some(i) => last_dot(v@) == Some(i as int) && i < v@.len(),
        },
{
    proof {
        assert(v@.subrange(0, v@.len() as int) =~= v@);
    }
    let mut k: usize = v.len();
    while k > 0
        invariant
            k <= v.len(),
            last_dot(v@) == last_dot(v@.subrange(0, k as int)),
        decreases k,
    {
        proof {
            let pre = v@.subrange(0, k as int);
            assert(pre[pre.len() - 1] == v@[k - 1]);
            assert(pre.drop_last() =~= v@.subrange(0, k - 1));
        }
        if v[k - 1] == 0x2Eu8 {
            return Some(k - 1);
        }
        k = k - 1;
    }
    proof {
        assert(v@.subrange(0, 0) =~= Seq::<u8>::empty());
    }
    None
}

/// Copies `v[from..to]` into a fresh vector.
fn sub_vec(v: &Vec<u8>, from: usize, to: usize) -> (r: Vec<u8>)
    requires
        from <= to <= v@.len(),
    ensures
        r@ == v@.subrange(from as int, to as int),
{
    let mut out: Vec<u8> = Vec::new();
    let mut i: usize = from;
    while i < to
        invariant
            from <= i <= to <= v@.len(),
            out@ == v@.subrange(from as int, i as int),
        decreases to - i,
    {
        out.push(v[i]);
        assert(out@ =~= v@.subrange(from as int, i + 1));
        i = i + 1;
    }
    out
}

/// Appends `.md`, first removing an extension already present: the part of
/// the last path component after its final dot, when that dot is not the
/// component's first byte.
fn force_md_extension(comp: &Vec<u8>) -> (r: Vec<u8>)
    ensures
        r@ == strip_extension(comp@) + dot_md_bytes(),
{
    proof {
        assert(comp@.subrange(0, comp@.len() as int) =~= comp@);
    }
    let d_opt = find_last_dot(comp);
    let mut out: Vec<u8>;
    match d_opt {
        Some(d) => {
            if d > 0 {
                out = sub_vec(comp, 0, d);
            } else {
                out = sub_vec(comp, 0, comp.len());
            }
            assert(last_dot(comp@) == Some(d as int));
            assert(out@ == strip_extension(comp@));
        },
        None => {
            out = sub_vec(comp, 0, comp.len());
            assert(last_dot(comp@) is None);
            assert(out@ == strip_extension(comp@));
        },
    }
    out.push(0x2Eu8);
    out.push(0x6Du8);
    out.push(0x64u8);
    assert(out@ =~= strip_extension(comp@) + dot_md_bytes());
    out
}

/// The repository file path for a page title, determined by the title and
/// namespace alone.
pub fn get_file_name(page_name: &str, namespace: u32) -> (r: String)
    ensures
        r@ == chars_of(spec_file_name(page_name.spec_bytes(), namespace)),
{
    let bytes = page_name.as_bytes_vec();
    let enc = encode_file_title(&bytes);
    let ghost enc_s = enc@;
    let ghost target = spec_file_name(page_name.spec_bytes(), namespace);
    let mut out: Vec<u8> = Vec::new();
    if namespace == 0 {
        out.push(0x4Du8);
        out.push(0x61u8);
        out.push(0x69u8);
        out.push(0x6Eu8);
        out.push(0x2Fu8);
        assert(out@ =~= main_slash_bytes());
        let mut enc_v = enc;
        out.append(&mut enc_v);
        out.push(0x2Eu8);
        out.push(0x6Du8);
        out.push(0x64u8);
        assert(out@ =~= target);
    } else {
        match find_encoded_colon(&enc) {
            None => {
                if namespace == 6 {
                    out = enc;
                } else {
                    out = force_md_extension(&enc);
                }
                assert(out@ =~= target);
            },
            Some(i) => {
                out = sub_vec(&enc, 0, i);
                out.push(0x2Fu8);
                assert(out@ =~= enc_s.subrange(0, i as int) + seq![0x2Fu8]);
                let n = enc.len();
                let comp = sub_vec(&enc, i + 3, n);
                if namespace == 6 {
                    let mut comp_v = comp;
                    out.append(&mut comp_v);
                } else {
                    let mut tail = force_md_extension(&comp);
                    out.append(&mut tail);
                }
                assert(out@ =~= target);
            },
        }
    }
    proof {
        lemma_spec_file_name_ascii(page_name.spec_bytes(), namespace);
    }
    ascii_to_string(out)
}

/// The branch name for a page title, determined by the title and namespace
/// alone.
pub fn get_branch_name(page_name: &str, namespace: u32) -> (r: String)
    ensures
        r@ == chars_of(spec_branch_name(page_name.spec_bytes(), namespace)),
{
    let bytes = page_name.as_bytes_vec();
    let input = if namespace == 0 {
        let mut pre: Vec<u8> = Vec::new();
        pre.push(0x4Du8);
        pre.push(0x61u8);
        pre.push(0x69u8);
        pre.push(0x6Eu8);
        pre.push(0x3Au8);
        assert(pre@ =~= main_colon_bytes());
        let mut b = bytes;
        pre.append(&mut b);
        pre
    } else {
        bytes
    };
    let enc = encode_branch(&input);
    ascii_to_string(enc)
}


/// Law: the naming scheme is pure and deterministic — two titles that read
/// the same, in the same namespace, map to the same file path and the same
/// branch name.
pub proof fn lemma_name_codec_deterministic(t1: &str, t2: &str, namespace: u32)
    requires
        t1@ == t2@,
    ensures
        spec_file_name(t1.spec_bytes(), namespace) == spec_file_name(t2.spec_bytes(), namespace),
        spec_branch_name(t1.spec_bytes(), namespace) == spec_branch_name(
            t2.spec_bytes(),
            namespace,
        ),
{
}

/// Law: a branch name never contains a literal dot: the encoder keeps only
/// unreserved bytes, and the one unreserved dot is itself forced to `%2E`.
pub proof fn lemma_branch_name_no_dot(title: Seq<u8>, namespace: u32)
    ensures
        forall|k: int|
            0 <= k < spec_branch_name(title, namespace).len() ==> spec_branch_name(
                title,
                namespace,
            )[k] != 0x2Eu8,
{
    if namespace == 0 {
        lemma_encoded_branch_never_dot(main_colon_bytes() + title);
    } else {
        lemma_encoded_branch_never_dot(title);
    }
}

proof fn lemma_branch_byte_never_dot(b: u8)
    ensures
        forall|k: int| 0 <= k < branch_byte(b).len() ==> branch_byte(b)[k] != 0x2Eu8,
{
    assert(hex_digit(b / 16) != 0x2Eu8);
    assert(hex_digit(b % 16) != 0x2Eu8);
}

proof fn lemma_encoded_branch_never_dot(s: Seq<u8>)
    ensures
        forall|k: int| 0 <= k < encoded_branch(s).len() ==> encoded_branch(s)[k] != 0x2Eu8,
    decreases s.len(),
{
    if s.len() > 0 {
        lemma_encoded_branch_never_dot(s.drop_first());
        lemma_branch_byte_never_dot(s[0]);
        let head = branch_byte(s[0]);
        let tail = encoded_branch(s.drop_first());
        assert(encoded_branch(s) == head + tail);
        assert forall|k: int| 0 <= k < encoded_branch(s).len() implies encoded_branch(s)[k]
            != 0x2Eu8 by {
            if k < head.len() {
                assert(encoded_branch(s)[k] == head[k]);
            } else {
                assert(encoded_branch(s)[k] == tail[k - head.len()]);
            }
        }
    }
}

/// The encoded `Main:` prefix that opens every default-namespace branch
/// name.
pub open spec fn main_pct3a_bytes() -> Seq<u8> {
    seq![0x4Du8, 0x61u8, 0x69u8, 0x6Eu8, 0x25u8, 0x33u8, 0x41u8]
}

/// Law: a default-namespace branch name is the encoded `Main:` prefix
/// followed by the branch encoding of the title itself.
pub proof fn lemma_default_branch_prefix(title: Seq<u8>)
    ensures
        spec_branch_name(title, 0) == main_pct3a_bytes() + encoded_branch(title),
{
    lemma_encoded_branch_append(main_colon_bytes(), title);
    reveal_with_fuel(encoded_branch, 6);
    assert(encoded_branch(main_colon_bytes()) =~= main_pct3a_bytes()) by {
        assert(main_colon_bytes().drop_first() =~= seq![0x61u8, 0x69u8, 0x6Eu8, 0x3Au8]);
        assert(seq![0x61u8, 0x69u8, 0x6Eu8, 0x3Au8].drop_first() =~= seq![0x69u8, 0x6Eu8, 0x3Au8]);
        assert(seq![0x69u8, 0x6Eu8, 0x3Au8].drop_first() =~= seq![0x6Eu8, 0x3Au8]);
        assert(seq![0x6Eu8, 0x3Au8].drop_first() =~= seq![0x3Au8]);
        assert(seq![0x3Au8].drop_first() =~= Seq::<u8>::empty());
    }
}

/// Whether `p` opens `s`.
pub open spec fn has_prefix(s: Seq<char>, p: Seq<char>) -> bool {
    p.len() <= s.len() && s.subrange(0, p.len() as int) == p
}

/// Whether the title starts with the prefix.
pub fn starts_with_prefix(s: &str, p: &str) -> (r: bool)
    ensures
        r == has_prefix(s@, p@),
{
    let n = p.unicode_len();
    let m = s.unicode_len();
    if n > m {
        return false;
    }
    let mut i: usize = 0;
    while i < n
        invariant
            i <= n,
            n == p@.len(),
            m == s@.len(),
            n <= m,
            forall|j: int| 0 <= j < i ==> s@[j] == p@[j],
        decreases n - i,
    {
        if s.get_char(i) != p.get_char(i) {
            proof {
                assert(s@.subrange(0, p@.len() as int)[i as int] == s@[i as int]);
            }
            return false;
        }
        i = i + 1;
    }
    proof {
        assert(s@.subrange(0, p@.len() as int) =~= p@);
    }
    true
}

/// The namespace a title's prefix selects, first match deciding.
pub open spec fn namespace_of_title(t: Seq<char>) -> i32 {
    if has_prefix(t, "Media"@) {
        -2i32
    } else if has_prefix(t, "Special"@) {
        -1i32
    } else if has_prefix(t, "Talk"@) {
        1
    } else if has_prefix(t, "User"@) {
        2
    } else if has_prefix(t, "User talk"@) {
        3
    } else if has_prefix(t, "ArchWiki"@) {
        4
    } else if has_prefix(t, "ArchWiki talk"@) {
        5
    } else if has_prefix(t, "File"@) {
        6
    } else if has_prefix(t, "File talk"@) {
        7
    } else if has_prefix(t, "MediaWiki"@) {
        8
    } else if has_prefix(t, "MediaWiki talk"@) {
        9
    } else if has_prefix(t, "Template"@) {
        10
    } else if has_prefix(t, "Template talk"@) {
        11
    } else if has_prefix(t, "Help"@) {
        12
    } else if has_prefix(t, "Help talk"@) {
        13
    } else if has_prefix(t, "Category"@) {
        14
    } else if has_prefix(t, "Category talk"@) {
        15
    } else if has_prefix(t, "DeveloperWiki"@) {
        3000
    } else {
        0
    }
}

/// Finds the namespace a title belongs to by its prefix, walking the known
/// prefixes in a fixed order and taking the first match; titles without a
/// known prefix fall to the default namespace.
pub fn namespace_for_title(title: &str) -> (ns: i32)
    ensures
        ns == namespace_of_title(title@),
{
    if starts_with_prefix(title, "Media") {
        -2
    } else if starts_with_prefix(title, "Special") {
        -1
    } else if starts_with_prefix(title, "Talk") {
        1
    } else if starts_with_prefix(title, "User") {
        2
    } else if starts_with_prefix(title, "User talk") {
        3
    } else if starts_with_prefix(title, "ArchWiki") {
        4
    } else if starts_with_prefix(title, "ArchWiki talk") {
        5
    } else if starts_with_prefix(title, "File") {
        6
    } else if starts_with_prefix(title, "File talk") {
        7
    } else if starts_with_prefix(title, "MediaWiki") {
        8
    } else if starts_with_prefix(title, "MediaWiki talk") {
        9
    } else if starts_with_prefix(title, "Template") {
        10
    } else if starts_with_prefix(title, "Template talk") {
        11
    } else if starts_with_prefix(title, "Help") {
        12
    } else if starts_with_prefix(title, "Help talk") {
        13
    } else if starts_with_prefix(title, "Category") {
        14
    } else if starts_with_prefix(title, "Category talk") {
        15
    } else if starts_with_prefix(title, "DeveloperWiki") {
        3000
    } else {
        0
    }
}

} // verus!
