//! Shared helpers for building and taking apart strings character by
//! character. Verified code works over `Seq<char>` views; these functions
//! bridge between `&str` / `String` and `Vec<char>`.
use vstd::prelude::*;
use vstd::relations::{sorted_by, total_ordering};
use vstd::seq_lib::{lemma_multiset_commutative, lemma_sorted_unique};

verus! {

/// The characters `str::trim` removes: those with the Unicode `White_Space`
/// property.
pub open spec fn is_space(c: char) -> bool {
    ||| c == ' '
    ||| c == '\t'
    ||| c == '\n'
    ||| c == '\r'
    ||| c == '\u{b}'
    ||| c == '\u{c}'
    ||| c == '\u{85}'
    ||| c == '\u{a0}'
    ||| c == '\u{1680}'
    ||| (0x2000 <= c as u32 && c as u32 <= 0x200a)
    ||| c == '\u{2028}'
    ||| c == '\u{2029}'
    ||| c == '\u{202f}'
    ||| c == '\u{205f}'
    ||| c == '\u{3000}'
}

pub fn is_space_char(c: char) -> (r: bool)
    ensures
        r == is_space(c),
{
    c == ' ' || c == '\t' || c == '\n' || c == '\r' || c == '\u{b}' || c == '\u{c}' || c
        == '\u{85}' || c == '\u{a0}' || c == '\u{1680}' || (0x2000 <= c as u32 && c as u32
        <= 0x200a) || c == '\u{2028}' || c == '\u{2029}' || c == '\u{202f}' || c == '\u{205f}' || c
        == '\u{3000}'
}

pub open spec fn trim_front(s: Seq<char>) -> Seq<char>
    decreases s.len(),
{
    if s.len() > 0 && is_space(s[0]) {
        trim_front(s.drop_first())
    } else {
        s
    }
}

pub open spec fn trim_back(s: Seq<char>) -> Seq<char>
    decreases s.len(),
{
    if s.len() > 0 && is_space(s.last()) {
        trim_back(s.drop_last())
    } else {
        s
    }
}

/// What `str::trim` leaves: the input without leading and trailing
/// whitespace.
pub open spec fn trimmed(s: Seq<char>) -> Seq<char> {
    trim_back(trim_front(s))
}

pub proof fn lemma_trim_front_at(s: Seq<char>, k: int)
    requires
        0 <= k <= s.len(),
        forall|j: int| 0 <= j < k ==> is_space(s[j]),
        k == s.len() || !is_space(s[k]),
    ensures
        trim_front(s) == s.skip(k),
    decreases k,
{
    if k == 0 {
        assert(s.skip(0) =~= s);
    } else {
        assert(is_space(s[0]));
        lemma_trim_front_at(s.drop_first(), k - 1);
        assert(s.drop_first().skip(k - 1) =~= s.skip(k));
    }
}

pub proof fn lemma_trim_back_at(s: Seq<char>, k: int)
    requires
        0 <= k <= s.len(),
        forall|j: int| k <= j < s.len() ==> is_space(s[j]),
        k == 0 || !is_space(s[k - 1]),
    ensures
        trim_back(s) == s.take(k),
    decreases s.len() - k,
{
    if k == s.len() {
        if s.len() > 0 && is_space(s.last()) {
            assert(!is_space(s[k - 1]));
            assert(false);
        }
        assert(s.take(k) =~= s);
    } else {
        assert(is_space(s.last()));
        lemma_trim_back_at(s.drop_last(), k);
        assert(s.drop_last().take(k) =~= s.take(k));
    }
}

/// The bounds of the whitespace-trimmed middle of a character slice.
pub fn trimmed_range(v: &[char]) -> (r: (usize, usize))
    ensures
        r.0 <= r.1 <= v@.len(),
        v@.subrange(r.0 as int, r.1 as int) == trimmed(v@),
{
    let mut start: usize = 0;
    while start < v.len() && is_space_char(v[start])
        invariant
            start <= v@.len(),
            forall|j: int| 0 <= j < start ==> is_space(v@[j]),
        decreases v@.len() - start,
    {
        start = start + 1;
    }
    let mut end: usize = v.len();
    while end > start && is_space_char(v[end - 1])
        invariant
            start <= end <= v@.len(),
            forall|j: int| end <= j < v@.len() ==> is_space(v@[j]),
        decreases end,
    {
        end = end - 1;
    }
    proof {
        lemma_trim_front_at(v@, start as int);
        let tf = v@.skip(start as int);
        lemma_trim_back_at(tf, end - start);
        assert(tf.take(end - start) =~= v@.subrange(start as int, end as int));
    }
    (start, end)
}

/// The ASCII-lowercased form of a character; characters outside `A`..`Z`
/// are unchanged.
pub open spec fn lower_char(c: char) -> char {
    if 'A' <= c && c <= 'Z' {
        (((c as u8) + 32) as char)
    } else {
        c
    }
}

pub fn lower_char_exec(c: char) -> (r: char)
    ensures
        r == lower_char(c),
{
    if 'A' <= c && c <= 'Z' {
        ((c as u8) + 32) as char
    } else {
        c
    }
}

/// Mapping commutes with appending one element.
pub proof fn lemma_map_values_push<A, B>(s: Seq<A>, f: spec_fn(A) -> B, x: A)
    ensures
        s.push(x).map_values(f) == s.map_values(f).push(f(x)),
{
    assert forall|j: int| 0 <= j < s.len() + 1 implies s.push(x).map_values(f)[j] == s.map_values(
        f,
    ).push(f(x))[j] by {
        if j < s.len() {
            assert(s.push(x)[j] == s[j]);
        } else {
            assert(s.push(x)[j] == x);
        }
    }
    assert(s.push(x).map_values(f) =~= s.map_values(f).push(f(x)));
}

/// A one-longer prefix is the prefix plus the next element.
pub proof fn lemma_take_snoc<A>(s: Seq<A>, i: int)
    requires
        0 <= i < s.len(),
    ensures
        s.take(i + 1) == s.take(i).push(s[i]),
{
    assert(s.take(i + 1) =~= s.take(i).push(s[i]));
}

/// Mapping commutes with taking a prefix.
pub proof fn lemma_map_values_take<A, B>(s: Seq<A>, f: spec_fn(A) -> B, i: int)
    requires
        0 <= i <= s.len(),
    ensures
        s.take(i).map_values(f) == s.map_values(f).take(i),
{
    assert forall|j: int| 0 <= j < i implies s.take(i).map_values(f)[j] == s.map_values(f).take(
        i,
    )[j] by {
        assert(s.take(i)[j] == s[j]);
    }
    assert(s.take(i).map_values(f) =~= s.map_values(f).take(i));
}

/// The given parts joined with a separator between consecutive parts.
pub open spec fn joined_with(parts: Seq<Seq<char>>, sep: Seq<char>) -> Seq<char>
    decreases parts.len(),
{
    if parts.len() == 0 {
        Seq::<char>::empty()
    } else if parts.len() == 1 {
        parts[0]
    } else {
        parts[0] + sep + joined_with(parts.drop_first(), sep)
    }
}

pub proof fn lemma_joined_with_snoc(parts: Seq<Seq<char>>, sep: Seq<char>, x: Seq<char>)
    ensures
        joined_with(parts.push(x), sep) == if parts.len() == 0 {
            x
        } else {
            joined_with(parts, sep) + sep + x
        },
    decreases parts.len(),
{
    if parts.len() == 0 {
        assert(parts.push(x)[0] == x);
    } else if parts.len() == 1 {
        assert(parts.push(x).drop_first() =~= seq![x]);
        assert(joined_with(parts.push(x), sep) == parts[0] + sep + joined_with(seq![x], sep));
    } else {
        lemma_joined_with_snoc(parts.drop_first(), sep, x);
        assert(parts.push(x).drop_first() =~= parts.drop_first().push(x));
        assert(joined_with(parts.push(x), sep) == parts[0] + sep + joined_with(
            parts.drop_first().push(x),
            sep,
        ));
        assert(joined_with(parts, sep) + sep + x =~= parts[0] + sep + (joined_with(
            parts.drop_first(),
            sep,
        ) + sep + x));
    }
}

/// Join strings with a separator.
pub fn join_strings(parts: &Vec<String>, sep: &str) -> (r: String)
    ensures
        r@ == joined_with(parts@.map_values(|s: String| s@), sep@),
{
    let ghost pv = parts@.map_values(|s: String| s@);
    let mut r = String::new();
    let mut i: usize = 0;
    while i < parts.len()
        invariant
            i <= parts@.len(),
            pv == parts@.map_values(|s: String| s@),
            r@ == joined_with(pv.take(i as int), sep@),
        decreases parts@.len() - i,
    {
        if i > 0 {
            r.append(sep);
        }
        r.append(parts[i].as_str());
        proof {
            assert(pv.take(i as int).push(pv[i as int]) =~= pv.take(i + 1));
            lemma_joined_with_snoc(pv.take(i as int), sep@, pv[i as int]);
            assert(r@ =~= joined_with(pv.take(i + 1), sep@));
        }
        i = i + 1;
    }
    proof {
        assert(pv.take(pv.len() as int) =~= pv);
    }
    r
}

/// Lexicographic order on character sequences, by Unicode scalar value: a
/// prefix comes first, and the first differing position decides.
pub open spec fn chars_le(a: Seq<char>, b: Seq<char>) -> bool
    decreases a.len(),
{
    if a.len() == 0 {
        true
    } else if b.len() == 0 {
        false
    } else if a[0] == b[0] {
        chars_le(a.drop_first(), b.drop_first())
    } else {
        a[0] < b[0]
    }
}

pub proof fn lemma_chars_le_refl(a: Seq<char>)
    ensures
        chars_le(a, a),
    decreases a.len(),
{
    if a.len() > 0 {
        lemma_chars_le_refl(a.drop_first());
    }
}

pub proof fn lemma_chars_le_connected(a: Seq<char>, b: Seq<char>)
    ensures
        chars_le(a, b) || chars_le(b, a),
    decreases a.len(),
{
    if a.len() == 0 {
    } else if b.len() == 0 {
    } else if a[0] == b[0] {
        lemma_chars_le_connected(a.drop_first(), b.drop_first());
    }
}

pub proof fn lemma_chars_le_antisym(a: Seq<char>, b: Seq<char>)
    requires
        chars_le(a, b),
        chars_le(b, a),
    ensures
        a == b,
    decreases a.len(),
{
    if a.len() == 0 {
        assert(b.len() == 0);
        assert(a =~= b);
    } else {
        assert(b.len() > 0);
        assert(a[0] == b[0]);
        lemma_chars_le_antisym(a.drop_first(), b.drop_first());
        assert(a.len() == b.len());
        assert forall|i: int| 0 <= i < a.len() implies a[i] == b[i] by {
            if i > 0 {
                assert(a[i] == a.drop_first()[i - 1]);
                assert(b[i] == b.drop_first()[i - 1]);
            }
        }
        assert(a =~= b);
    }
}

pub proof fn lemma_chars_le_trans(a: Seq<char>, b: Seq<char>, c: Seq<char>)
    requires
        chars_le(a, b),
        chars_le(b, c),
    ensures
        chars_le(a, c),
    decreases a.len(),
{
    if a.len() == 0 {
    } else {
        assert(b.len() > 0);
        if b.len() > 0 && c.len() > 0 {
            if a[0] == b[0] && b[0] == c[0] {
                lemma_chars_le_trans(a.drop_first(), b.drop_first(), c.drop_first());
            }
        }
    }
}

proof fn lemma_chars_le_common_prefix(a: Seq<char>, b: Seq<char>, i: int)
    requires
        0 <= i <= a.len(),
        i <= b.len(),
        forall|j: int| 0 <= j < i ==> a[j] == b[j],
    ensures
        chars_le(a, b) == chars_le(a.skip(i), b.skip(i)),
    decreases i,
{
    if i == 0 {
        assert(a.skip(0) =~= a);
        assert(b.skip(0) =~= b);
    } else {
        assert(a[0] == b[0]);
        lemma_chars_le_common_prefix(a.drop_first(), b.drop_first(), i - 1);
        assert(a.drop_first().skip(i - 1) =~= a.skip(i));
        assert(b.drop_first().skip(i - 1) =~= b.skip(i));
    }
}

/// Compare two character slices: the lexicographic `<=` and exact equality.
pub fn chars_le_eq(a: &[char], b: &[char]) -> (r: (bool, bool))
    ensures
        r.0 == chars_le(a@, b@),
        r.1 == (a@ == b@),
{
    let n: usize = if a.len() < b.len() {
        a.len()
    } else {
        b.len()
    };
    let mut i: usize = 0;
    while i < n
        invariant
            i <= n,
            n == if a@.len() < b@.len() {
                a@.len()
            } else {
                b@.len()
            },
            forall|j: int| 0 <= j < i ==> a@[j] == b@[j],
        decreases n - i,
    {
        let ca = a[i];
        let cb = b[i];
        if ca != cb {
            proof {
                lemma_chars_le_common_prefix(a@, b@, i as int);
                assert(a@.skip(i as int)[0] == a@[i as int]);
                assert(b@.skip(i as int)[0] == b@[i as int]);
            }
            return (ca < cb, false);
        }
        i = i + 1;
    }
    proof {
        lemma_chars_le_common_prefix(a@, b@, n as int);
    }
    if a.len() == b.len() {
        proof {
            assert(a@ =~= b@);
            lemma_chars_le_refl(a@);
        }
        (true, true)
    } else if a.len() < b.len() {
        proof {
            assert(a@.skip(n as int).len() == 0);
        }
        (true, false)
    } else {
        proof {
            assert(b@.skip(n as int).len() == 0);
            assert(a@.skip(n as int).len() > 0);
        }
        (false, false)
    }
}

/// The ordering used for name lists: case-sensitive lexicographic, or
/// primarily by the ASCII-lowercased form with the raw form as the
/// tie-breaker, so that either way the order is total.
pub open spec fn name_le(a: Seq<char>, b: Seq<char>, ci: bool) -> bool {
    if ci {
        let la = a.map_values(|c: char| lower_char(c));
        let lb = b.map_values(|c: char| lower_char(c));
        if la == lb {
            chars_le(a, b)
        } else {
            chars_le(la, lb)
        }
    } else {
        chars_le(a, b)
    }
}

/// The name ordering as a relation value, for use with `sort_by`.
pub open spec fn name_ordering(ci: bool) -> spec_fn(Seq<char>, Seq<char>) -> bool {
    |a: Seq<char>, b: Seq<char>| name_le(a, b, ci)
}

pub proof fn lemma_name_ordering_total(ci: bool)
    ensures
        total_ordering(name_ordering(ci)),
{
    let ord = name_ordering(ci);
    assert forall|x: Seq<char>| #[trigger] ord(x, x) by {
        lemma_chars_le_refl(x);
        if ci {
            lemma_chars_le_refl(x.map_values(|c: char| lower_char(c)));
        }
    }
    assert forall|x: Seq<char>, y: Seq<char>| #[trigger] ord(x, y) && #[trigger] ord(y, x)
        implies x == y by {
        if ci {
            let lx = x.map_values(|c: char| lower_char(c));
            let ly = y.map_values(|c: char| lower_char(c));
            if lx == ly {
                lemma_chars_le_antisym(x, y);
            } else {
                lemma_chars_le_antisym(lx, ly);
                assert(false);
            }
        } else {
            lemma_chars_le_antisym(x, y);
        }
    }
    assert forall|x: Seq<char>, y: Seq<char>, z: Seq<char>|
        #[trigger] ord(x, y) && #[trigger] ord(y, z) implies ord(x, z) by {
        if ci {
            let lx = x.map_values(|c: char| lower_char(c));
            let ly = y.map_values(|c: char| lower_char(c));
            let lz = z.map_values(|c: char| lower_char(c));
            if lx == ly && ly == lz {
                lemma_chars_le_trans(x, y, z);
            } else if lx == ly {
                assert(ord(x, z) == chars_le(lx, lz));
            } else if ly == lz {
                assert(ord(x, z) == chars_le(lx, lz));
            } else {
                lemma_chars_le_trans(lx, ly, lz);
                if lx == lz {
                    lemma_chars_le_antisym(lx, ly);
                    assert(false);
                }
            }
        } else {
            lemma_chars_le_trans(x, y, z);
        }
    }
    assert forall|x: Seq<char>, y: Seq<char>| #[trigger] ord(x, y) || #[trigger] ord(y, x) by {
        if ci {
            let lx = x.map_values(|c: char| lower_char(c));
            let ly = y.map_values(|c: char| lower_char(c));
            if lx == ly {
                lemma_chars_le_connected(x, y);
            } else {
                lemma_chars_le_connected(lx, ly);
            }
        } else {
            lemma_chars_le_connected(x, y);
        }
    }
}

/// Map a string slice to its character vector.
fn lower_chars(s: &str) -> (r: Vec<char>)
    ensures
        r@ == s@.map_values(|c: char| lower_char(c)),
{
    let cs = str_chars(s);
    let mut v: Vec<char> = Vec::new();
    let mut i: usize = 0;
    while i < cs.len()
        invariant
            i <= cs@.len(),
            cs@ == s@,
            v@ == cs@.subrange(0, i as int).map_values(|c: char| lower_char(c)),
        decreases cs@.len() - i,
    {
        v.push(lower_char_exec(cs[i]));
        i = i + 1;
        proof {
            assert(v@ =~= cs@.subrange(0, i as int).map_values(|c: char| lower_char(c)));
        }
    }
    proof {
        assert(cs@.subrange(0, cs@.len() as int) =~= cs@);
    }
    v
}

/// Whether one name comes no later than another under the chosen ordering.
pub fn name_le_exec(a: &String, b: &String, ci: bool) -> (r: bool)
    ensures
        r == name_le(a@, b@, ci),
{
    if ci {
        let la = lower_chars(a.as_str());
        let lb = lower_chars(b.as_str());
        let cmp = chars_le_eq(la.as_slice(), lb.as_slice());
        if cmp.1 {
            let ca = str_chars(a.as_str());
            let cb = str_chars(b.as_str());
            chars_le_eq(ca.as_slice(), cb.as_slice()).0
        } else {
            cmp.0
        }
    } else {
        let ca = str_chars(a.as_str());
        let cb = str_chars(b.as_str());
        chars_le_eq(ca.as_slice(), cb.as_slice()).0
    }
}

fn insert_pos(out: &Vec<String>, s: &String, ci: bool) -> (p: usize)
    ensures
        p <= out@.len(),
        forall|j: int| 0 <= j < p ==> name_le(#[trigger] out@[j]@, s@, ci),
        p < out@.len() ==> !name_le(out@[p as int]@, s@, ci),
{
    let mut p: usize = 0;
    while p < out.len()
        invariant
            p <= out@.len(),
            forall|j: int| 0 <= j < p ==> name_le(#[trigger] out@[j]@, s@, ci),
        decreases out@.len() - p,
    {
        if !name_le_exec(&out[p], s, ci) {
            return p;
        }
        p = p + 1;
    }
    p
}

/// Sort names under the chosen ordering. The result is exactly the
/// specification-level sort of the input views.
pub fn sort_names(v: &Vec<String>, ci: bool) -> (r: Vec<String>)
    ensures
        r@.map_values(|s: String| s@) == v@.map_values(|s: String| s@).sort_by(name_ordering(ci)),
{
    let ghost ord = name_ordering(ci);
    let ghost inv_all = v@.map_values(|s: String| s@);
    let mut out: Vec<String> = Vec::new();
    let mut i: usize = 0;
    proof {
        lemma_name_ordering_total(ci);
        assert(out@.map_values(|s: String| s@) =~= inv_all.take(0));
    }
    while i < v.len()
        invariant
            i <= v@.len(),
            inv_all == v@.map_values(|s: String| s@),
            total_ordering(ord),
            ord == name_ordering(ci),
            sorted_by(out@.map_values(|s: String| s@), ord),
            out@.map_values(|s: String| s@).to_multiset() == inv_all.take(i as int).to_multiset(),
        decreases v@.len() - i,
    {
        let s = v[i].clone();
        assert(s@ == inv_all[i as int]);
        let ghost outv = out@.map_values(|x: String| x@);
        let p = insert_pos(&out, &s, ci);
        proof {
            if p < outv.len() {
                assert(out@[p as int]@ == outv[p as int]);
                assert(!name_le(outv[p as int], s@, ci));
                assert(!ord(outv[p as int], s@));
                assert(ord(outv[p as int], s@) || ord(s@, outv[p as int]));
                assert(ord(s@, outv[p as int]));
            }
            assert(forall|j: int| 0 <= j < p ==> #[trigger] ord(outv[j], s@));
        }
        out.insert(p, s);
        proof {
            broadcast use vstd::seq_lib::group_to_multiset_ensures;
            broadcast use vstd::multiset::group_multiset_axioms;

            let x = inv_all[i as int];
            let outv2 = out@.map_values(|y: String| y@);
            assert(outv2 =~= outv.insert(p as int, x));
            // The insertion keeps the list sorted.
            assert forall|j: int, k: int| 0 <= j < k < outv2.len() implies #[trigger] ord(
                outv2[j],
                outv2[k],
            ) by {
                if k < p {
                    assert(outv2[j] == outv[j] && outv2[k] == outv[k]);
                } else if j < p && k == p {
                    assert(outv2[j] == outv[j] && outv2[k] == x);
                } else if j == p {
                    assert(outv2[j] == x && outv2[k] == outv[k - 1]);
                    assert(ord(x, outv[p as int]));
                    if k - 1 > p {
                        assert(ord(outv[p as int], outv[k - 1]));
                    }
                } else if j < p {
                    assert(outv2[j] == outv[j] && outv2[k] == outv[k - 1]);
                } else {
                    assert(outv2[j] == outv[j - 1] && outv2[k] == outv[k - 1]);
                }
            }
            // The insertion adds exactly the new element to the contents.
            assert(outv =~= outv.take(p as int) + outv.skip(p as int));
            assert(outv2 =~= outv.take(p as int) + (seq![x] + outv.skip(p as int)));
            assert(outv.push(x) =~= outv.take(p as int) + outv.skip(p as int) + seq![x]);
            lemma_multiset_commutative(outv.take(p as int), seq![x] + outv.skip(p as int));
            lemma_multiset_commutative(seq![x], outv.skip(p as int));
            lemma_multiset_commutative(outv.take(p as int), outv.skip(p as int));
            lemma_multiset_commutative(outv.take(p as int) + outv.skip(p as int), seq![x]);
            assert(outv2.to_multiset() =~= outv.push(x).to_multiset());
            assert(outv.push(x).to_multiset() =~= outv.to_multiset().insert(x));
            assert(inv_all.take(i + 1) =~= inv_all.take(i as int).push(x));
            assert(inv_all.take(i + 1).to_multiset() =~= inv_all.take(
                i as int,
            ).to_multiset().insert(x));
            assert(outv2.to_multiset() =~= inv_all.take(i + 1).to_multiset());
        }
        i = i + 1;
    }
    proof {
        assert(inv_all.take(inv_all.len() as int) =~= inv_all);
        inv_all.lemma_sort_by_ensures(ord);
        lemma_sorted_unique(out@.map_values(|s: String| s@), inv_all.sort_by(ord), ord);
        assert(out@.map_values(|s: String| s@) == inv_all.sort_by(ord));
    }
    out
}

/// Relies on `String::push`: appends exactly one character at the end.
#[verifier::external_body]
pub fn push_char(s: &mut String, c: char)
    ensures
        final(s)@ == old(s)@ + seq![c],
{
    s.push(c);
}

/// Collect the characters of a string slice into a vector.
pub fn str_chars(s: &str) -> (r: Vec<char>)
    ensures
        r@ == s@,
{
    let n = s.unicode_len();
    let mut r: Vec<char> = Vec::new();
    let mut i: usize = 0;
    while i < n
        invariant
            n == s@.len(),
            i <= n,
            r@ == s@.subrange(0, i as int),
        decreases n - i,
    {
        let c = s.get_char(i);
        r.push(c);
        i = i + 1;
        proof {
            assert(r@ =~= s@.subrange(0, i as int));
        }
    }
    proof {
        assert(r@ =~= s@);
    }
    r
}

/// Build a string from a slice of characters.
pub fn chars_string(v: &[char]) -> (r: String)
    ensures
        r@ == v@,
{
    let mut r = String::new();
    let mut i: usize = 0;
    while i < v.len()
        invariant
            i <= v@.len(),
            r@ == v@.subrange(0, i as int),
        decreases v@.len() - i,
    {
        push_char(&mut r, v[i]);
        i = i + 1;
        proof {
            assert(r@ =~= v@.subrange(0, i as int));
        }
    }
    proof {
        assert(r@ =~= v@);
    }
    r
}

} // verus!
