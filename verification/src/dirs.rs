//! Where a project's supervisor keeps its state on disk. Each project is
//! keyed by a short stable identifier derived from its canonicalized root
//! path, so independent invocations for the same project agree on the
//! directory. Canonicalizing the root and reading the environment are the
//! caller's concern; everything here is a pure function of those strings.
use crate::hashing::{blake3_digest, blake3_digest_of};
use crate::strutil::push_char;
use vstd::prelude::*;
use vstd::string::StringExecFns;
use vstd::string::StringSliceAdditionalSpecFns;

verus! {

/// The character of a single lowercase hexadecimal digit.
pub open spec fn hex_char(d: int) -> char
    recommends
        0 <= d < 16,
{
    if d < 10 {
        (((48 + d) as u8) as char)
    } else {
        (((87 + d) as u8) as char)
    }
}

/// The lowercase hexadecimal rendering of a byte sequence, two digits per
/// byte.
pub open spec fn hex_of(bytes: Seq<u8>) -> Seq<char>
    decreases bytes.len(),
{
    if bytes.len() == 0 {
        Seq::<char>::empty()
    } else {
        seq![hex_char(bytes[0] as int / 16), hex_char(bytes[0] as int % 16)] + hex_of(
            bytes.drop_first(),
        )
    }
}

proof fn lemma_hex_of_snoc(s: Seq<u8>, b: u8)
    ensures
        hex_of(s + seq![b]) == hex_of(s) + seq![hex_char(b as int / 16), hex_char(b as int % 16)],
    decreases s.len(),
{
    if s.len() == 0 {
        assert(s + seq![b] =~= seq![b]);
        assert(seq![b].drop_first() =~= Seq::<u8>::empty());
        assert(hex_of(Seq::<u8>::empty()) =~= Seq::<char>::empty());
        assert(hex_of(s + seq![b]) =~= hex_of(s) + seq![hex_char(b as int / 16), hex_char(b as int % 16)]);
    } else {
        let t = s + seq![b];
        assert(t.drop_first() =~= s.drop_first() + seq![b]);
        lemma_hex_of_snoc(s.drop_first(), b);
        assert(t[0] == s[0]);
        assert(hex_of(t) =~= hex_of(s) + seq![hex_char(b as int / 16), hex_char(b as int % 16)]);
    }
}

fn hex_char_of(d: u8) -> (r: char)
    requires
        d < 16,
    ensures
        r == hex_char(d as int),
{
    if d < 10 {
        (48 + d) as char
    } else {
        (87 + d) as char
    }
}

/// The stable identifier of a project: the first twelve lowercase hex
/// digits (six bytes) of the BLAKE3 digest of its canonicalized root path.
pub open spec fn spec_project_id(canonical_root: Seq<u8>) -> Seq<char> {
    hex_of(blake3_digest_of(canonical_root).take(6))
}

/// Derive the project identifier from a canonicalized root path.
pub fn project_id(canonical_root: &str) -> (r: String)
    ensures
        r@ == spec_project_id(canonical_root.spec_bytes()),
{
    let digest = blake3_digest(canonical_root.as_bytes());
    let ghost six = blake3_digest_of(canonical_root.spec_bytes()).take(6);
    let mut r = String::new();
    let mut i: usize = 0;
    while i < 6
        invariant
            i <= 6,
            digest@ == blake3_digest_of(canonical_root.spec_bytes()),
            digest@.len() == 32,
            six == blake3_digest_of(canonical_root.spec_bytes()).take(6),
            r@ == hex_of(six.take(i as int)),
        decreases 6 - i,
    {
        let b = digest[i];
        push_char(&mut r, hex_char_of(b / 16));
        push_char(&mut r, hex_char_of(b % 16));
        proof {
            assert(six.take(i as int) + seq![six[i as int]] =~= six.take(i + 1));
            lemma_hex_of_snoc(six.take(i as int), b);
            assert(r@ =~= hex_of(six.take(i + 1)));
        }
        i = i + 1;
    }
    proof {
        assert(six.take(6) =~= six);
    }
    r
}

/// The base directory for persisted state: an explicit override wins, then
/// the conventional per-user location under the home directory, then a
/// local fallback.
pub fn xdg_state_home(xdg_override: Option<&String>, home: Option<&String>) -> (r: String)
    ensures
        r@ == (match xdg_override {
            Some(x) => x@,
            None => match home {
                Some(h) => h@ + "/.local/state"@,
                None => ".oxproc-state"@,
            },
        }),
{
    match xdg_override {
        Some(x) => x.clone(),
        None => match home {
            Some(h) => {
                let mut r = h.clone();
                r.append("/.local/state");
                r
            },
            None => String::from_str(".oxproc-state"),
        },
    }
}

/// The state directory of a project: the application's subdirectory of the
/// state home, keyed by the project identifier.
pub fn state_dir_for_project(state_home: &str, canonical_root: &str) -> (r: String)
    ensures
        r@ == state_home@ + "/oxproc/"@ + spec_project_id(canonical_root.spec_bytes()),
{
    let mut r = state_home.to_owned();
    r.append("/oxproc/");
    let id = project_id(canonical_root);
    r.append(id.as_str());
    proof {
        assert(r@ =~= state_home@ + "/oxproc/"@ + spec_project_id(canonical_root.spec_bytes()));
    }
    r
}

} // verus!
