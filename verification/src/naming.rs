//! Destination file names.

use crate::capture::Captured;
use crate::gopro::{extension, extension_of};
use crate::paths::{join_path, path_join};
use crate::text::{
    cut_last, decimal, lemma_decimal_injective, lemma_last_index, opt_str_view, or_text, push_u64,
    replace, replaced, rsplit_once, same_text, to_chars, views,
};
use vstd::prelude::*;

verus! {

// ---- names ----------------------------------------------------------------

/// `c`, or an underscore in place of a path separator or NUL.
pub open spec fn safe_char(c: char) -> char {
    if c == '/' || c == '\\' || c == '\0' {
        '_'
    } else {
        c
    }
}

/// `name` forced to be one path component: separators and NUL become
/// underscores, and a result that is empty, `.` or `..` becomes `_`.
pub open spec fn safe_name(name: Seq<char>) -> Seq<char> {
    let cleaned = Seq::new(name.len(), |i: int| safe_char(name[i]));
    if cleaned.len() == 0 || cleaned == "."@ || cleaned == ".."@ {
        "_"@
    } else {
        cleaned
    }
}

/// True of a name that is exactly one component of a path and names no
/// directory above it.
pub open spec fn single_component(name: Seq<char>) -> bool {
    &&& name.len() > 0
    &&& name != "."@
    &&& name != ".."@
    &&& forall|i: int| 0 <= i < name.len() ==> safe_char(#[trigger] name[i]) == name[i]
}

/// The destination name that `template` gives a file.
pub open spec fn rendered(
    template: Seq<char>,
    original: Seq<char>,
    cap: Captured<Seq<char>>,
    serial: Option<Seq<char>>,
    model: Option<Seq<char>>,
) -> Seq<char> {
    let a = replaced(template, "{date}"@, cap.date);
    let b = replaced(a, "{time}"@, cap.time);
    let c = replaced(b, "{original}"@, original);
    let d = replaced(c, "{ext}"@, extension(original));
    let e = replaced(d, "{camera}"@, or_text(serial, "unknown"@));
    let f = replaced(e, "{model}"@, or_text(model, "GoPro"@));
    safe_name(f)
}

/// Renders a destination file name. The tokens of `template` are `{date}`,
/// `{time}`, `{original}`, `{ext}`, `{camera}` (the serial number) and
/// `{model}`. The last two come off the card, so the result is forced to be one
/// path component.
pub fn render_name(
    template: &str,
    original: &str,
    cap: &Captured,
    serial: Option<&str>,
    model: Option<&str>,
) -> (r: String)
    ensures
        r@ == rendered(template@, original@, cap@, opt_str_view(serial), opt_str_view(model)),
        single_component(r@),
{
    let ext = extension_of(original);
    let camera: &str = match serial {
        Some(s) => s,
        None => "unknown",
    };
    let family: &str = match model {
        Some(s) => s,
        None => "GoPro",
    };
    let a = replace(template, "{date}", cap.date.as_str());
    let b = replace(a.as_str(), "{time}", cap.time.as_str());
    let c = replace(b.as_str(), "{original}", original);
    let d = replace(c.as_str(), "{ext}", ext.as_str());
    let e = replace(d.as_str(), "{camera}", camera);
    let f = replace(e.as_str(), "{model}", family);
    sanitize_file_name(f.as_str())
}

/// Forces `name` to be one path component.
pub fn sanitize_file_name(name: &str) -> (r: String)
    ensures
        r@ == safe_name(name@),
        single_component(r@),
{
    let v = to_chars(name);
    let mut cleaned: String = String::new();
    let ghost target = Seq::new(name@.len(), |i: int| safe_char(name@[i]));
    let mut i: usize = 0;
    while i < v.len()
        invariant
            v@ == name@,
            i <= v@.len(),
            target == Seq::new(name@.len(), |i: int| safe_char(name@[i])),
            cleaned@ == target.take(i as int),
        decreases v.len() - i,
    {
        let c = v[i];
        let x: char = if c == '/' || c == '\\' || c == '\0' {
            '_'
        } else {
            c
        };
        cleaned.push(x);
        assert(target.take(i + 1) =~= target.take(i as int).push(x));
        i += 1;
    }
    assert(target.take(i as int) =~= target);
    proof {
        safe_name_is_one_component(name@);
    }
    if cleaned.as_str().is_empty() || same_text(cleaned.as_str(), ".") || same_text(
        cleaned.as_str(),
        "..",
    ) {
        "_".to_owned()
    } else {
        cleaned
    }
}

/// Whatever the text, `safe_name` makes it one path component.
pub proof fn safe_name_is_one_component(name: Seq<char>)
    ensures
        single_component(safe_name(name)),
{
    reveal_strlit("_");
    reveal_strlit(".");
    reveal_strlit("..");
    let cleaned = Seq::new(name.len(), |i: int| safe_char(name[i]));
    if cleaned.len() == 0 || cleaned == "."@ || cleaned == ".."@ {
        assert("_"@[0] == '_');
        assert("."@[0] == '.');
    } else {
        assert forall|i: int| 0 <= i < cleaned.len() implies safe_char(#[trigger] cleaned[i])
            == cleaned[i] by {
            assert(cleaned[i] == safe_char(name[i]));
        }
    }
}

/// A name that is already one path component is kept as it is.
pub proof fn safe_name_keeps_components(name: Seq<char>)
    requires
        single_component(name),
    ensures
        safe_name(name) == name,
{
    assert(Seq::new(name.len(), |i: int| safe_char(name[i])) =~= name);
}

/// A rendered name below a directory stays directly inside it: what follows the
/// directory and its separator holds no separator and is not `..`.
pub proof fn rendered_name_stays_inside(
    root: Seq<char>,
    template: Seq<char>,
    original: Seq<char>,
    cap: Captured<Seq<char>>,
    serial: Option<Seq<char>>,
    model: Option<Seq<char>>,
)
    requires
        root.len() > 0,
    ensures
        ({
            let name = rendered(template, original, cap, serial, model);
            let path = path_join(root, name);
            &&& single_component(name)
            &&& path == (if root.last() == '/' {
                root + name
            } else {
                root.push('/') + name
            })
            &&& forall|i: int|
                path.len() - name.len() <= i < path.len() ==> #[trigger] path[i] != '/' && path[i]
                    != '\\'
        }),
{
    let e = replaced(
        replaced(
            replaced(
                replaced(replaced(template, "{date}"@, cap.date), "{time}"@, cap.time),
                "{original}"@,
                original,
            ),
            "{ext}"@,
            extension(original),
        ),
        "{camera}"@,
        or_text(serial, "unknown"@),
    );
    safe_name_is_one_component(replaced(e, "{model}"@, or_text(model, "GoPro"@)));
    let name = rendered(template, original, cap, serial, model);
    let path = path_join(root, name);
    assert(name[0] != '/') by {
        assert(safe_char(name[0]) == name[0]);
    }
    let off = path.len() - name.len();
    assert forall|i: int| off <= i < path.len() implies #[trigger] path[i] != '/' && path[i]
        != '\\' by {
        assert(path[i] == name[i - off]);
        assert(safe_char(name[i - off]) == name[i - off]);
    }
}

// ---- collisions -------------------------------------------------------------

/// `name` with `_n` put before its extension.
pub open spec fn numbered(name: Seq<char>, n: nat) -> Seq<char> {
    match cut_last(name, '.') {
        Some((stem, ext)) => stem + "_"@ + decimal(n) + "."@ + ext,
        None => name + "_"@ + decimal(n),
    }
}

/// The paths that are tried for `name` below `dir`: the name itself, and then
/// the numbered names from one on.
pub open spec fn candidate(dir: Seq<char>, name: Seq<char>, n: nat) -> Seq<char> {
    if n == 0 {
        path_join(dir, name)
    } else {
        path_join(dir, numbered(name, n))
    }
}

/// True of a path that is in one of the two lists.
pub open spec fn taken(path: Seq<char>, existing: Seq<Seq<char>>, reserved: Seq<Seq<char>>) -> bool {
    existing.contains(path) || reserved.contains(path)
}

/// True of the first path tried that is not taken.
pub open spec fn first_free(
    dir: Seq<char>,
    name: Seq<char>,
    existing: Seq<Seq<char>>,
    reserved: Seq<Seq<char>>,
    path: Seq<char>,
) -> bool {
    exists|n: nat| #[trigger]
        candidate(dir, name, n) == path && !taken(path, existing, reserved) && (forall|m: nat|
            m < n ==> taken(#[trigger] candidate(dir, name, m), existing, reserved))
}

/// True if the list holds the text.
pub fn list_has(list: &Vec<String>, s: &str) -> (r: bool)
    ensures
        r == views(list@).contains(s@),
{
    let mut i: usize = 0;
    while i < list.len()
        invariant
            i <= list@.len(),
            forall|j: int| 0 <= j < i ==> (#[trigger] list@[j])@ != s@,
        decreases list.len() - i,
    {
        if same_text(list[i].as_str(), s) {
            assert(views(list@)[i as int] == s@);
            return true;
        }
        i += 1;
    }
    assert forall|j: int| 0 <= j < views(list@).len() implies views(list@)[j] != s@ by {
        assert(list@[j]@ == views(list@)[j]);
    }
    false
}

/// `name` with `_n` put before its extension.
fn numbered_name(name: &str, n: u32) -> (r: String)
    ensures
        r@ == numbered(name@, n as nat),
{
    match rsplit_once(name, '.') {
        Some((stem, ext)) => {
            let mut s = stem;
            s.append("_");
            push_u64(&mut s, n as u64);
            s.append(".");
            s.append(ext.as_str());
            s
        },
        None => {
            let mut s = name.to_owned();
            s.append("_");
            push_u64(&mut s, n as u64);
            s
        },
    }
}

/// Whether a numbered name begins with a separator is settled by the name alone.
proof fn lemma_numbered_head(name: Seq<char>, n: nat)
    ensures
        numbered(name, n).len() > 0,
        (numbered(name, n)[0] == '/') == (name.len() > 0 && name[0] == '/'),
{
    reveal_strlit("_");
    lemma_last_index(name, '.');
    match cut_last(name, '.') {
        Some((stem, ext)) => {
            let head = stem + "_"@;
            let r = numbered(name, n);
            assert(r[0] == head[0]);
            if stem.len() > 0 {
                assert(head[0] == name[0]);
            } else {
                assert(head[0] == '_');
                assert(name[0] == '.');
            }
        },
        None => {
            let head = name + "_"@;
            assert(numbered(name, n)[0] == head[0]);
        },
    }
}

/// Different numbers give different names.
pub proof fn numbered_injective(name: Seq<char>, a: nat, b: nat)
    requires
        numbered(name, a) == numbered(name, b),
    ensures
        a == b,
{
    let x = numbered(name, a);
    let y = numbered(name, b);
    match cut_last(name, '.') {
        Some((stem, ext)) => {
            let head = stem + "_"@;
            let tail = "."@ + ext;
            assert(x =~= head + decimal(a) + tail);
            assert(y =~= head + decimal(b) + tail);
            assert(x.len() == head.len() + decimal(a).len() + tail.len());
            assert(y.len() == head.len() + decimal(b).len() + tail.len());
            let h = head.len() as int;
            assert(decimal(a) =~= x.subrange(h, x.len() - tail.len()));
            assert(decimal(b) =~= y.subrange(h, y.len() - tail.len()));
        },
        None => {
            let h = (name + "_"@).len() as int;
            assert(decimal(a) =~= x.skip(h));
            assert(decimal(b) =~= y.skip(h));
        },
    }
    lemma_decimal_injective(a, b);
}

/// Different numbers give different paths.
pub proof fn candidates_differ(dir: Seq<char>, name: Seq<char>, a: nat, b: nat)
    requires
        a > 0,
        b > 0,
        candidate(dir, name, a) == candidate(dir, name, b),
    ensures
        a == b,
{
    lemma_numbered_head(name, a);
    lemma_numbered_head(name, b);
    let x = numbered(name, a);
    let y = numbered(name, b);
    if dir.len() == 0 || (name.len() > 0 && name[0] == '/') {
        assert(x == y);
    } else {
        crate::paths::path_join_injective(dir, x, y);
    }
    numbered_injective(name, a, b);
}

/// With `k` paths taken, one of the first `k + 1` numbered paths is free.
proof fn lemma_some_candidate_is_free(
    dir: Seq<char>,
    name: Seq<char>,
    existing: Seq<Seq<char>>,
    reserved: Seq<Seq<char>>,
)
    ensures
        exists|n: nat|
            1 <= n <= existing.len() + reserved.len() + 1 && !taken(
                #[trigger] candidate(dir, name, n),
                existing,
                reserved,
            ),
{
    let k = existing.len() + reserved.len();
    let tried = Seq::new((k + 1) as nat, |i: int| candidate(dir, name, (i + 1) as nat));
    let all = existing + reserved;
    if forall|n: nat| 1 <= n <= k + 1 ==> taken(#[trigger] candidate(dir, name, n), existing, reserved) {
        assert forall|i: int, j: int| 0 <= i < tried.len() && 0 <= j < tried.len() && i != j implies tried[i]
            != tried[j] by {
            if tried[i] == tried[j] {
                candidates_differ(dir, name, (i + 1) as nat, (j + 1) as nat);
            }
        }
        assert(tried.no_duplicates());
        tried.unique_seq_to_set();
        vstd::seq_lib::seq_to_set_is_finite(all);
        all.lemma_cardinality_of_set();
        assert forall|p: Seq<char>| tried.to_set().contains(p) implies all.to_set().contains(p) by {
            let i = choose|i: int| 0 <= i < tried.len() && tried[i] == p;
            assert(taken(candidate(dir, name, (i + 1) as nat), existing, reserved));
            if existing.contains(p) {
                let j = choose|j: int| 0 <= j < existing.len() && existing[j] == p;
                assert(all[j] == p);
            } else {
                let j = choose|j: int| 0 <= j < reserved.len() && reserved[j] == p;
                assert(all[existing.len() + j] == p);
            }
        }
        vstd::set_lib::lemma_len_subset(tried.to_set(), all.to_set());
        assert(false);
    }
}

/// The first free path for `name` below `dest_dir`: the name itself, if it is
/// neither among the paths that exist nor among those reserved earlier in the
/// run, else `<stem>_<n>.<ext>` for the first free `n`.
pub fn resolve_collision(
    dest_dir: &str,
    name: &str,
    existing: &Vec<String>,
    reserved: &Vec<String>,
) -> (r: String)
    requires
        existing@.len() + reserved@.len() < u32::MAX,
    ensures
        first_free(dest_dir@, name@, views(existing@), views(reserved@), r@),
{
    let plain = join_path(dest_dir, name);
    if !list_has(existing, plain.as_str()) && !list_has(reserved, plain.as_str()) {
        assert(candidate(dest_dir@, name@, 0) == plain@);
        return plain;
    }
    let mut n: u32 = 1;
    let ghost limit = existing@.len() + reserved@.len() + 1;
    loop
        invariant
            1 <= n <= limit,
            limit == existing@.len() + reserved@.len() + 1,
            limit <= u32::MAX,
            forall|m: nat|
                m < n ==> taken(#[trigger] candidate(dest_dir@, name@, m), views(existing@), views(reserved@)),
        decreases limit - n,
    {
        let alt = join_path(dest_dir, numbered_name(name, n).as_str());
        assert(candidate(dest_dir@, name@, n as nat) == alt@);
        if !list_has(existing, alt.as_str()) && !list_has(reserved, alt.as_str()) {
            return alt;
        }
        proof {
            lemma_some_candidate_is_free(dest_dir@, name@, views(existing@), views(reserved@));
            let free = choose|k: nat|
                1 <= k <= limit && !taken(
                    #[trigger] candidate(dest_dir@, name@, k),
                    views(existing@),
                    views(reserved@),
                );
            assert(free > n);
        }
        n += 1;
    }
}

/// The path that a collision search settles on is free, and it is the only one
/// that the search can settle on.
pub proof fn first_free_is_unique(
    dir: Seq<char>,
    name: Seq<char>,
    existing: Seq<Seq<char>>,
    reserved: Seq<Seq<char>>,
    p: Seq<char>,
    q: Seq<char>,
)
    requires
        first_free(dir, name, existing, reserved, p),
        first_free(dir, name, existing, reserved, q),
    ensures
        p == q,
        !taken(p, existing, reserved),
{
    let a = choose|n: nat| #[trigger]
        candidate(dir, name, n) == p && !taken(p, existing, reserved) && (forall|m: nat|
            m < n ==> taken(#[trigger] candidate(dir, name, m), existing, reserved));
    let b = choose|n: nat| #[trigger]
        candidate(dir, name, n) == q && !taken(q, existing, reserved) && (forall|m: nat|
            m < n ==> taken(#[trigger] candidate(dir, name, m), existing, reserved));
    if a < b {
        assert(taken(candidate(dir, name, a), existing, reserved));
    } else if b < a {
        assert(taken(candidate(dir, name, b), existing, reserved));
    }
}

/// The path that a collision search settles on.
pub open spec fn free_path(
    dir: Seq<char>,
    name: Seq<char>,
    existing: Seq<Seq<char>>,
    reserved: Seq<Seq<char>>,
) -> Seq<char> {
    choose|p: Seq<char>| first_free(dir, name, existing, reserved, p)
}

/// A collision search settles on a path, and on no other.
pub proof fn free_path_is_first_free(
    dir: Seq<char>,
    name: Seq<char>,
    existing: Seq<Seq<char>>,
    reserved: Seq<Seq<char>>,
)
    ensures
        first_free(dir, name, existing, reserved, free_path(dir, name, existing, reserved)),
        !taken(free_path(dir, name, existing, reserved), existing, reserved),
{
    lemma_some_candidate_is_free(dir, name, existing, reserved);
    let n = choose|n: nat|
        1 <= n <= existing.len() + reserved.len() + 1 && !taken(
            #[trigger] candidate(dir, name, n),
            existing,
            reserved,
        );
    lemma_least_free(dir, name, existing, reserved, n);
    let p = free_path(dir, name, existing, reserved);
    first_free_is_unique(dir, name, existing, reserved, p, p);
}

proof fn lemma_least_free(
    dir: Seq<char>,
    name: Seq<char>,
    existing: Seq<Seq<char>>,
    reserved: Seq<Seq<char>>,
    n: nat,
)
    requires
        !taken(candidate(dir, name, n), existing, reserved),
    ensures
        exists|p: Seq<char>| first_free(dir, name, existing, reserved, p),
    decreases n,
{
    if exists|m: nat| m < n && !taken(#[trigger] candidate(dir, name, m), existing, reserved) {
        let m = choose|m: nat|
            m < n && !taken(#[trigger] candidate(dir, name, m), existing, reserved);
        lemma_least_free(dir, name, existing, reserved, m);
    } else {
        assert(first_free(dir, name, existing, reserved, candidate(dir, name, n)));
    }
}

/// Paths that were not tried do not matter: if the free path among some that exist
/// does not exist either, it is the free path among all that exist.
pub proof fn untried_paths_do_not_matter(
    dir: Seq<char>,
    name: Seq<char>,
    some: Seq<Seq<char>>,
    all: Seq<Seq<char>>,
    reserved: Seq<Seq<char>>,
)
    requires
        forall|p: Seq<char>| #[trigger] some.contains(p) ==> all.contains(p),
        !all.contains(free_path(dir, name, some, reserved)),
    ensures
        free_path(dir, name, all, reserved) == free_path(dir, name, some, reserved),
{
    let p = free_path(dir, name, some, reserved);
    free_path_is_first_free(dir, name, some, reserved);
    free_path_is_first_free(dir, name, all, reserved);
    let n = choose|n: nat| #[trigger]
        candidate(dir, name, n) == p && !taken(p, some, reserved) && (forall|m: nat|
            m < n ==> taken(#[trigger] candidate(dir, name, m), some, reserved));
    assert(candidate(dir, name, n) == p && !taken(p, all, reserved));
    assert(first_free(dir, name, all, reserved, p));
    first_free_is_unique(dir, name, all, reserved, p, free_path(dir, name, all, reserved));
}

} // verus!
