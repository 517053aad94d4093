//! Paths as texts with `/` between their components.

use vstd::prelude::*;

verus! {

/// `name` below the directory `base`. An absolute `name` stands for itself, and
/// so does one below the empty path.
pub open spec fn path_join(base: Seq<char>, name: Seq<char>) -> Seq<char> {
    if base.len() == 0 || (name.len() > 0 && name[0] == '/') {
        name
    } else if base.last() == '/' {
        base + name
    } else {
        base.push('/') + name
    }
}

/// `name` below the directory `base`.
pub fn join_path(base: &str, name: &str) -> (r: String)
    ensures
        r@ == path_join(base@, name@),
{
    let b = crate::text::to_chars(base);
    let n = crate::text::to_chars(name);
    if b.len() == 0 || (n.len() > 0 && n[0] == '/') {
        return name.to_owned();
    }
    let mut s = base.to_owned();
    if b[b.len() - 1] != '/' {
        s.push('/');
    }
    s.append(name);
    s
}

/// The file that a transfer to `dest` streams into before it is renamed.
pub open spec fn part_of(dest: Seq<char>) -> Seq<char> {
    dest + ".part"@
}

/// `dest` with `.part` behind it.
pub fn part_path(dest: &str) -> (r: String)
    ensures
        r@ == part_of(dest@),
{
    let mut s = dest.to_owned();
    s.append(".part");
    s
}

/// Two names without a leading separator that give the same path below one
/// directory are the same name.
pub proof fn path_join_injective(base: Seq<char>, a: Seq<char>, b: Seq<char>)
    requires
        a.len() > 0 ==> a[0] != '/',
        b.len() > 0 ==> b[0] != '/',
        path_join(base, a) == path_join(base, b),
    ensures
        a == b,
{
    let p = path_join(base, a);
    if base.len() == 0 {
    } else if base.last() == '/' {
        assert(p.skip(base.len() as int) =~= a);
        assert(p.skip(base.len() as int) =~= b);
    } else {
        assert(p.skip((base.len() + 1) as int) =~= a);
        assert(p.skip((base.len() + 1) as int) =~= b);
    }
}

} // verus!
