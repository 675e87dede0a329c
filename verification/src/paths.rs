//! Paths as text.

use vstd::prelude::*;

use crate::text::{chars_of, copied};

verus! {

/// The path `rel` seen from directory `base`: an absolute `rel` stands for
/// itself, and no separator is doubled.
pub open spec fn under(base: Seq<char>, rel: Seq<char>) -> Seq<char> {
    if rel.len() > 0 && rel[0] == '/' || base.len() == 0 {
        rel
    } else if base.last() == '/' {
        base + rel
    } else {
        base + "/"@ + rel
    }
}

/// The path `rel` seen from directory `base`.
pub fn join(base: &str, rel: &str) -> (r: String)
    ensures
        r@ == under(base@, rel@),
        rel@.len() > 0 && rel@[0] == '/' ==> r@ == rel@,
        base@.len() == 0 ==> r@ == rel@,
        !(rel@.len() > 0 && rel@[0] == '/') && base@.len() > 0 && base@.last() == '/' ==> r@ == base@
            + rel@,
        !(rel@.len() > 0 && rel@[0] == '/') && base@.len() > 0 && base@.last() != '/' ==> r@ == base@
            + seq!['/'] + rel@,
{
    proof {
        reveal_strlit("/");
        assert("/"@ =~= seq!['/']);
    }
    let b: Vec<char> = chars_of(base);
    let c: Vec<char> = chars_of(rel);
    if b.len() == 0 || c.len() > 0 && c[0] == '/' {
        return copied(rel);
    }
    let mut s: String = copied(base);
    if b[b.len() - 1] != '/' {
        s.append("/");
    }
    s.append(rel);
    s
}

/// The path of something in a directory is the directory's path, one slash and
/// its name, however the directory's path ends; seen from another directory, an
/// absolute path stays what it is.
pub proof fn law_under_a_directory(base: Seq<char>, rel: Seq<char>)
    ensures
        rel.len() > 0 && rel[0] == '/' ==> under(base, rel) == rel,
        base.len() == 0 ==> under(base, rel) == rel,
        (rel.len() == 0 || rel[0] != '/') && base.len() > 0 && base.last() != '/' ==> under(
            base,
            rel,
        ) == base + seq!['/'] + rel && under(base + seq!['/'], rel) == under(base, rel),
{
    reveal_strlit("/");
    assert("/"@ =~= seq!['/']);
    assert((base + seq!['/']).last() == '/');
}

/// `s` from its first character that is no slash.
pub open spec fn without_slashes(s: Seq<char>) -> Seq<char>
    decreases s.len(),
{
    if s.len() > 0 && s[0] == '/' {
        without_slashes(s.skip(1))
    } else {
        s
    }
}

/// `s` from its first character that is no slash.
pub fn strip_slashes<'a>(s: &'a str) -> (r: &'a str)
    ensures
        r@ == without_slashes(s@),
        r@.len() <= s@.len() && r@ == s@.skip(s@.len() - r@.len()),
        forall|k: int| 0 <= k < s@.len() - r@.len() ==> s@[k] == '/',
        r@.len() > 0 ==> r@[0] != '/',
{
    let v: Vec<char> = chars_of(s);
    let mut i: usize = 0;
    assert(v@.skip(0) =~= v@);
    while i < v.len() && v[i] == '/'
        invariant
            i <= v@.len(),
            v@ == s@,
            without_slashes(s@) == without_slashes(v@.skip(i as int)),
            forall|k: int| 0 <= k < i ==> s@[k] == '/',
        decreases v@.len() - i,
    {
        assert(v@.skip(i as int).skip(1) =~= v@.skip(i + 1));
        i += 1;
    }
    assert(v@.skip(i as int) =~= s@.subrange(i as int, s@.len() as int));
    s.substring_char(i, v.len())
}

} // verus!
