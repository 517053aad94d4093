//! Laws of plans: which files are taken, when they were captured, and what they are named.

use crate::capture::{
    a_local_time_is_that_of_the_clock, clock_gives, exif_capture, in_calendar, local_capture,
    photo_capture, three_numbers, Captured,
};
use crate::config::Config;
use crate::gopro::{
    extension, identity_of, kind_of, media_folder_name, version_json, CardVersion, FolderEntry,
    MediaKind,
};
use crate::ledger::LedgerModel;
use crate::naming::{
    candidate, first_free, free_path, free_path_is_first_free, numbered, rendered, safe_name,
    safe_name_keeps_components, single_component, taken,
};
use crate::paths::path_join;
use crate::scanner::{
    captures_match, entry_orders, file_name_of, folder_names, media_flags, plan_context, plan_paths,
    wanted, wanted_flags, CardFile, FileEntry, PlanContext,
};
use crate::text::{
    all_digits, arranged, arranged_is_sorted, cut_last, is_digit, lemma_first_index_is,
    lemma_last_index, lemma_last_index_is, lower_char, lowered, names_rise, or_text, pieces,
    replaced,
};
use crate::wired::client::RemoteMedia;
use crate::wired::offload::{local_times, wired_paths, WiredContext};
use vstd::prelude::*;

verus! {

// ---- kinds ------------------------------------------------------------------

proof fn lemma_extension(stem: Seq<char>, ext: Seq<char>)
    requires
        !ext.contains('.'),
    ensures
        extension(stem + seq!['.'] + ext) == ext,
        cut_last(stem + seq!['.'] + ext, '.') == Some((stem, ext)),
{
    let name = stem + seq!['.'] + ext;
    let i = stem.len() as int;
    assert forall|j: int| i < j < name.len() implies name[j] != '.' by {
        assert(name[j] == ext[j - i - 1]);
        assert(ext.contains(ext[j - i - 1]));
    }
    lemma_last_index_is(name, '.', i);
    assert(name.take(i) =~= stem);
    assert(name.skip(i + 1) =~= ext);
}

proof fn lemma_lower(c: char, low: char, up: char)
    requires
        'a' <= low <= 'z',
        up as int + 32 == low as int,
    ensures
        lower_char(c) == low <==> c == low || c == up,
{
    if 'A' <= c <= 'Z' {
        assert((c as int + 32) as char as int == c as int + 32);
    }
}

proof fn lemma_lower_digit(c: char, d: char)
    requires
        '0' <= d <= '9',
    ensures
        lower_char(c) == d <==> c == d,
{
    if 'A' <= c <= 'Z' {
        assert((c as int + 32) as char as int == c as int + 32);
    }
}

/// The kind of a file follows from the three characters behind its last dot, in upper or
/// lower case: `mp4` is a video, `360` a spherical one, `jpg` a photo, `lrv` a proxy and
/// `thm` a thumbnail. Everything else is of no known kind.
pub proof fn a_kind_follows_from_the_extension(stem: Seq<char>, ext: Seq<char>)
    requires
        !ext.contains('.'),
    ensures
        ({
            let kind = kind_of(stem + seq!['.'] + ext);
            let three = ext.len() == 3;
            &&& kind == MediaKind::Video <==> three && (ext[0] == 'm' || ext[0] == 'M') && (ext[1]
                == 'p' || ext[1] == 'P') && ext[2] == '4'
            &&& kind == MediaKind::Video360 <==> three && ext[0] == '3' && ext[1] == '6' && ext[2]
                == '0'
            &&& kind == MediaKind::Photo <==> three && (ext[0] == 'j' || ext[0] == 'J') && (ext[1]
                == 'p' || ext[1] == 'P') && (ext[2] == 'g' || ext[2] == 'G')
            &&& kind == MediaKind::Proxy <==> three && (ext[0] == 'l' || ext[0] == 'L') && (ext[1]
                == 'r' || ext[1] == 'R') && (ext[2] == 'v' || ext[2] == 'V')
            &&& kind == MediaKind::Thumbnail <==> three && (ext[0] == 't' || ext[0] == 'T') && (
            ext[1] == 'h' || ext[1] == 'H') && (ext[2] == 'm' || ext[2] == 'M')
        }),
{
    lemma_extension(stem, ext);
    reveal_strlit("mp4");
    reveal_strlit("360");
    reveal_strlit("jpg");
    reveal_strlit("lrv");
    reveal_strlit("thm");
    let low = lowered(ext);
    assert(low.len() == ext.len());
    if ext.len() == 3 {
        lemma_lower(ext[0], 'm', 'M');
        lemma_lower(ext[0], 'j', 'J');
        lemma_lower(ext[0], 'l', 'L');
        lemma_lower(ext[0], 't', 'T');
        lemma_lower(ext[1], 'p', 'P');
        lemma_lower(ext[1], 'r', 'R');
        lemma_lower(ext[1], 'h', 'H');
        lemma_lower(ext[2], 'g', 'G');
        lemma_lower(ext[2], 'v', 'V');
        lemma_lower(ext[2], 'm', 'M');
        lemma_lower_digit(ext[2], '4');
        lemma_lower_digit(ext[0], '3');
        lemma_lower_digit(ext[1], '6');
        lemma_lower_digit(ext[2], '0');
        assert(low == "mp4"@ <==> low[0] == 'm' && low[1] == 'p' && low[2] == '4') by {
            if low[0] == 'm' && low[1] == 'p' && low[2] == '4' {
                assert(low =~= "mp4"@);
            }
        }
        assert(low == "360"@ <==> low[0] == '3' && low[1] == '6' && low[2] == '0') by {
            if low[0] == '3' && low[1] == '6' && low[2] == '0' {
                assert(low =~= "360"@);
            }
        }
        assert(low == "jpg"@ <==> low[0] == 'j' && low[1] == 'p' && low[2] == 'g') by {
            if low[0] == 'j' && low[1] == 'p' && low[2] == 'g' {
                assert(low =~= "jpg"@);
            }
        }
        assert(low == "lrv"@ <==> low[0] == 'l' && low[1] == 'r' && low[2] == 'v') by {
            if low[0] == 'l' && low[1] == 'r' && low[2] == 'v' {
                assert(low =~= "lrv"@);
            }
        }
        assert(low == "thm"@ <==> low[0] == 't' && low[1] == 'h' && low[2] == 'm') by {
            if low[0] == 't' && low[1] == 'h' && low[2] == 'm' {
                assert(low =~= "thm"@);
            }
        }
    }
}

/// A name without a dot is of no known kind.
pub proof fn a_name_without_a_dot_has_no_kind(name: Seq<char>)
    requires
        !name.contains('.'),
    ensures
        kind_of(name) == MediaKind::Unknown,
        extension(name).len() == 0,
{
    lemma_last_index(name, '.');
    reveal_strlit("mp4");
    reveal_strlit("360");
    reveal_strlit("jpg");
    reveal_strlit("lrv");
    reveal_strlit("thm");
    let k = crate::text::last_index(name, '.');
    if k >= 0 {
        assert(name.contains(name[k]));
    }
    assert(lowered(extension(name)).len() == 0);
}

/// Proxies and thumbnails are taken only where they are asked for; everything else always.
pub proof fn companions_are_taken_when_asked_for(
    kind: MediaKind,
    include_proxies: bool,
    include_thumbnails: bool,
)
    ensures
        kind == MediaKind::Proxy ==> wanted(kind, include_proxies, include_thumbnails)
            == include_proxies,
        kind == MediaKind::Thumbnail ==> wanted(kind, include_proxies, include_thumbnails)
            == include_thumbnails,
        kind != MediaKind::Proxy && kind != MediaKind::Thumbnail ==> wanted(
            kind,
            include_proxies,
            include_thumbnails,
        ),
{
}

/// Of a media folder every file is taken, once, unless it is a proxy or a thumbnail that is
/// not asked for; directories are not. They come in the order of the bytes of their names.
pub proof fn a_folder_gives_its_files(entries: Seq<FileEntry>, cfg: Config<Seq<char>>, i: int)
    requires
        0 <= i < entries.len(),
    ensures
        ({
            let order = arranged(entry_orders(entries), wanted_flags(entries, cfg), entries.len());
            let kind = kind_of(entries[i].name@);
            &&& order.contains(i) <==> entries[i].is_file && (kind == MediaKind::Proxy
                ==> cfg.include_proxies) && (kind == MediaKind::Thumbnail
                ==> cfg.include_thumbnails)
            &&& names_rise(Seq::new(entries.len(), |k: int| entries[k].order@), order)
        }),
{
    arranged_is_sorted(entry_orders(entries), wanted_flags(entries, cfg), entries.len());
    assert(entry_orders(entries) =~= Seq::new(entries.len(), |k: int| entries[k].order@));
}

/// A folder is a media folder if and only if its name is three digits and `GOPRO`.
pub proof fn a_media_folder_is_named_so(name: Seq<char>)
    ensures
        media_folder_name(name) <==> name.len() == 8 && '0' <= name[0] <= '9' && '0' <= name[1]
            <= '9' && '0' <= name[2] <= '9' && name[3] == 'G' && name[4] == 'O' && name[5] == 'P'
            && name[6] == 'R' && name[7] == 'O',
{
    reveal_strlit("GOPRO");
    if name.len() == 8 {
        let t = name.skip(3);
        assert(t[0] == name[3] && t[1] == name[4] && t[2] == name[5] && t[3] == name[6] && t[4]
            == name[7]);
        if t[0] == 'G' && t[1] == 'O' && t[2] == 'P' && t[3] == 'R' && t[4] == 'O' {
            assert(t =~= "GOPRO"@);
        }
    }
}

/// The folders of a card that are scanned are the directories named like media folders, in
/// the order of their names.
pub proof fn a_card_gives_its_media_folders(entries: Seq<FolderEntry>, i: int)
    requires
        0 <= i < entries.len(),
    ensures
        ({
            let order = arranged(folder_names(entries), media_flags(entries), entries.len());
            &&& order.contains(i) <==> entries[i].is_dir && entries[i].name is Some
                && media_folder_name(entries[i].name->0@)
            &&& names_rise(folder_names(entries), order)
        }),
{
    arranged_is_sorted(folder_names(entries), media_flags(entries), entries.len());
}

/// A card is known by the serial number of its version file, unless that is empty, and by
/// its model where the firmware begins with `H22`.
pub proof fn a_card_is_known_by_its_version_file(v: CardVersion)
    ensures
        identity_of(None) == (None::<Seq<char>>, None::<Seq<char>>),
        v.camera_serial_number@.len() == 0 ==> identity_of(Some(v)).0 is None,
        v.camera_serial_number@.len() > 0 ==> identity_of(Some(v)).0 == Some(
            v.camera_serial_number@,
        ),
        identity_of(Some(v)).1 == (if v.firmware_version@.len() >= 3 && v.firmware_version@[0]
            == 'H' && v.firmware_version@[1] == '2' && v.firmware_version@[2] == '2' {
            Some("HERO11"@)
        } else {
            None
        }),
{
    reveal_strlit("H22");
    let f = v.firmware_version@;
    let p = "H22"@;
    if f.len() >= 3 {
        assert(f.subrange(0, 3)[0] == f[0] && f.subrange(0, 3)[1] == f[1] && f.subrange(0, 3)[2]
            == f[2]);
        if f[0] == 'H' && f[1] == '2' && f[2] == '2' {
            assert(p =~= f.subrange(0, 3));
        }
    }
}

// ---- texts with replacements ------------------------------------------------

proof fn lemma_replaced_passes(s: Seq<char>, pat: Seq<char>, with: Seq<char>, n: int)
    requires
        pat.len() > 0,
        0 <= n <= s.len(),
        forall|j: int| 0 <= j < n ==> #[trigger] s[j] != pat[0],
    ensures
        replaced(s, pat, with) == s.take(n) + replaced(s.skip(n), pat, with),
    decreases n,
{
    if n == 0 {
        assert(s.skip(0) =~= s);
        assert(s.take(0) + replaced(s, pat, with) =~= replaced(s, pat, with));
    } else {
        assert(s[0] != pat[0]);
        assert(!pat.is_prefix_of(s));
        let t = s.skip(1);
        assert forall|j: int| 0 <= j < n - 1 implies #[trigger] t[j] != pat[0] by {
            assert(t[j] == s[j + 1]);
        }
        lemma_replaced_passes(t, pat, with, n - 1);
        assert(t.skip(n - 1) =~= s.skip(n));
        assert(seq![s[0]] + (t.take(n - 1) + replaced(s.skip(n), pat, with)) =~= s.take(n)
            + replaced(s.skip(n), pat, with));
    }
}

/// True of a text without an opening brace.
pub open spec fn plain(s: Seq<char>) -> bool {
    forall|i: int| 0 <= i < s.len() ==> #[trigger] s[i] != '{'
}

proof fn lemma_replaced_plain(s: Seq<char>, pat: Seq<char>, with: Seq<char>)
    requires
        pat.len() > 0,
        pat[0] == '{',
        plain(s),
    ensures
        replaced(s, pat, with) == s,
{
    let n = s.len() as int;
    lemma_replaced_passes(s, pat, with, n);
    assert(s.skip(n).len() == 0);
    assert(s.take(n) + s.skip(n) =~= s);
}

/// A text is put in the place of a pattern that stands once in a text.
proof fn lemma_replaced_once(p: Seq<char>, pat: Seq<char>, q: Seq<char>, with: Seq<char>)
    requires
        pat.len() > 0,
        pat[0] == '{',
        plain(p),
        plain(q),
    ensures
        replaced(p + pat + q, pat, with) == p + with + q,
{
    let s = p + pat + q;
    let n = p.len() as int;
    assert forall|j: int| 0 <= j < n implies #[trigger] s[j] != pat[0] by {
        assert(s[j] == p[j]);
    }
    lemma_replaced_passes(s, pat, with, n);
    let t = s.skip(n);
    assert(t =~= pat + q);
    assert(pat.is_prefix_of(t)) by {
        assert(t.subrange(0, pat.len() as int) =~= pat);
    }
    assert(t.skip(pat.len() as int) =~= q);
    lemma_replaced_plain(q, pat, with);
    assert(s.take(n) =~= p);
    assert(p + (with + q) =~= p + with + q);
}

/// A pattern that does not stand in a text leaves it as it is.
proof fn lemma_replaced_not(
    p: Seq<char>,
    other: Seq<char>,
    q: Seq<char>,
    pat: Seq<char>,
    with: Seq<char>,
)
    requires
        pat.len() > 1,
        other.len() > 1,
        pat[0] == '{',
        other[0] == '{',
        pat[1] != other[1],
        plain(p),
        plain(q),
        plain(other.skip(1)),
    ensures
        replaced(p + other + q, pat, with) == p + other + q,
{
    let s = p + other + q;
    let n = p.len() as int;
    assert forall|j: int| 0 <= j < n implies #[trigger] s[j] != pat[0] by {
        assert(s[j] == p[j]);
    }
    lemma_replaced_passes(s, pat, with, n);
    let t = s.skip(n);
    assert(t[1] == other[1]);
    assert(!pat.is_prefix_of(t)) by {
        if pat.is_prefix_of(t) {
            assert(t.subrange(0, pat.len() as int)[1] == t[1]);
        }
    }
    let u = t.skip(1);
    assert(plain(u)) by {
        assert forall|i: int| 0 <= i < u.len() implies #[trigger] u[i] != '{' by {
            if i < other.len() - 1 {
                assert(u[i] == other.skip(1)[i]);
            } else {
                assert(u[i] == q[i - (other.len() - 1)]);
            }
        }
    }
    lemma_replaced_plain(u, pat, with);
    assert(t[0] == '{');
    assert(seq![t[0]] + u =~= t);
    assert(s.take(n) + t =~= s);
}

proof fn lemma_tokens()
    ensures
        "{date}"@ =~= seq!['{', 'd', 'a', 't', 'e', '}'],
        "{time}"@ =~= seq!['{', 't', 'i', 'm', 'e', '}'],
        "{original}"@ =~= seq!['{', 'o', 'r', 'i', 'g', 'i', 'n', 'a', 'l', '}'],
        "{ext}"@ =~= seq!['{', 'e', 'x', 't', '}'],
        "{camera}"@ =~= seq!['{', 'c', 'a', 'm', 'e', 'r', 'a', '}'],
        "{model}"@ =~= seq!['{', 'm', 'o', 'd', 'e', 'l', '}'],
        plain("{date}"@.skip(1)),
        plain("{time}"@.skip(1)),
        plain("{original}"@.skip(1)),
        plain("{ext}"@.skip(1)),
        plain("{camera}"@.skip(1)),
        plain("{model}"@.skip(1)),
{
    reveal_strlit("{date}");
    reveal_strlit("{time}");
    reveal_strlit("{original}");
    reveal_strlit("{ext}");
    reveal_strlit("{camera}");
    reveal_strlit("{model}");
}

/// Each token stands for what it names: the date and the time of the capture, the name and
/// the extension of the file, the serial number of the camera (`unknown` without one) and
/// its model (`GoPro` without one). Around it the template is kept; only what is no part of
/// a file name is made safe.
pub proof fn each_token_stands_for_its_value(
    p: Seq<char>,
    q: Seq<char>,
    original: Seq<char>,
    cap: Captured<Seq<char>>,
    serial: Option<Seq<char>>,
    model: Option<Seq<char>>,
)
    requires
        plain(p),
        plain(q),
        plain(original),
        plain(cap.date),
        plain(cap.time),
        serial is Some ==> plain(serial->0),
        model is Some ==> plain(model->0),
    ensures
        rendered(p + "{date}"@ + q, original, cap, serial, model) == safe_name(p + cap.date + q),
        rendered(p + "{time}"@ + q, original, cap, serial, model) == safe_name(p + cap.time + q),
        rendered(p + "{original}"@ + q, original, cap, serial, model) == safe_name(
            p + original + q,
        ),
        rendered(p + "{ext}"@ + q, original, cap, serial, model) == safe_name(
            p + extension(original) + q,
        ),
        serial is Some ==> rendered(p + "{camera}"@ + q, original, cap, serial, model)
            == safe_name(p + serial->0 + q),
        serial is None ==> rendered(p + "{camera}"@ + q, original, cap, serial, model)
            == safe_name(p + "unknown"@ + q),
        model is Some ==> rendered(p + "{model}"@ + q, original, cap, serial, model) == safe_name(
            p + model->0 + q,
        ),
        model is None ==> rendered(p + "{model}"@ + q, original, cap, serial, model) == safe_name(
            p + "GoPro"@ + q,
        ),
{
    lemma_tokens();
    reveal_strlit("unknown");
    reveal_strlit("GoPro");
    let v0 = cap.date;
    let v1 = cap.time;
    let v2 = original;
    let v3 = extension(original);
    let v4 = or_text(serial, "unknown"@);
    let v5 = or_text(model, "GoPro"@);
    assert(plain(v3)) by {
        lemma_last_index(original, '.');
        let k = crate::text::last_index(original, '.');
        if k >= 0 {
            assert forall|i: int| 0 <= i < v3.len() implies #[trigger] v3[i] != '{' by {
                assert(v3[i] == original[k + 1 + i]);
            }
        }
    }
    lemma_render(p, "{date}"@, q, v0, v0, v1, v2, v3, v4, v5);
    lemma_render(p, "{time}"@, q, v1, v0, v1, v2, v3, v4, v5);
    lemma_render(p, "{original}"@, q, v2, v0, v1, v2, v3, v4, v5);
    lemma_render(p, "{ext}"@, q, v3, v0, v1, v2, v3, v4, v5);
    lemma_render(p, "{camera}"@, q, v4, v0, v1, v2, v3, v4, v5);
    lemma_render(p, "{model}"@, q, v5, v0, v1, v2, v3, v4, v5);
}

/// One of the six replacements on a text that holds one token, or none any more.
proof fn lemma_one_step(
    s: Seq<char>,
    p: Seq<char>,
    tok: Seq<char>,
    q: Seq<char>,
    v: Seq<char>,
    pat: Seq<char>,
    with: Seq<char>,
) -> (r: Seq<char>)
    requires
        pat.len() > 1,
        tok.len() > 1,
        pat[0] == '{',
        tok[0] == '{',
        pat == tok || pat[1] != tok[1],
        pat == tok ==> with == v,
        plain(p),
        plain(q),
        plain(v),
        plain(tok.skip(1)),
        s == p + tok + q || s == p + v + q,
    ensures
        r == replaced(s, pat, with),
        s == p + v + q ==> r == s,
        s == p + tok + q && pat == tok ==> r == p + v + q,
        s == p + tok + q && pat != tok ==> r == s,
{
    if s == p + v + q {
        assert(plain(s)) by {
            assert forall|i: int| 0 <= i < s.len() implies #[trigger] s[i] != '{' by {
                if i < p.len() {
                    assert(s[i] == p[i]);
                } else if i < p.len() + v.len() {
                    assert(s[i] == v[i - p.len()]);
                } else {
                    assert(s[i] == q[i - p.len() - v.len()]);
                }
            }
        }
        lemma_replaced_plain(s, pat, with);
    } else if pat == tok {
        lemma_replaced_once(p, tok, q, v);
    } else {
        lemma_replaced_not(p, tok, q, pat, with);
    }
    replaced(s, pat, with)
}

proof fn lemma_render(
    p: Seq<char>,
    tok: Seq<char>,
    q: Seq<char>,
    v: Seq<char>,
    v0: Seq<char>,
    v1: Seq<char>,
    v2: Seq<char>,
    v3: Seq<char>,
    v4: Seq<char>,
    v5: Seq<char>,
)
    requires
        plain(p),
        plain(q),
        plain(v),
        (tok == "{date}"@ && v == v0) || (tok == "{time}"@ && v == v1) || (tok == "{original}"@ && v
            == v2) || (tok == "{ext}"@ && v == v3) || (tok == "{camera}"@ && v == v4) || (tok
            == "{model}"@ && v == v5),
    ensures
        replaced(
            replaced(
                replaced(
                    replaced(
                        replaced(replaced(p + tok + q, "{date}"@, v0), "{time}"@, v1),
                        "{original}"@,
                        v2,
                    ),
                    "{ext}"@,
                    v3,
                ),
                "{camera}"@,
                v4,
            ),
            "{model}"@,
            v5,
        ) == p + v + q,
{
    lemma_tokens();
    let a = lemma_one_step(p + tok + q, p, tok, q, v, "{date}"@, v0);
    let b = lemma_one_step(a, p, tok, q, v, "{time}"@, v1);
    let c = lemma_one_step(b, p, tok, q, v, "{original}"@, v2);
    let d = lemma_one_step(c, p, tok, q, v, "{ext}"@, v3);
    let e = lemma_one_step(d, p, tok, q, v, "{camera}"@, v4);
    let f = lemma_one_step(e, p, tok, q, v, "{model}"@, v5);
}

/// By the template of a configuration that names none, a file is named by the date of its
/// capture, an underscore and its own name.
pub proof fn a_default_name_begins_with_the_date(
    original: Seq<char>,
    cap: Captured<Seq<char>>,
    serial: Option<Seq<char>>,
    model: Option<Seq<char>>,
)
    requires
        plain(original),
        plain(cap.date),
        plain(cap.time),
        serial is Some ==> plain(serial->0),
        model is Some ==> plain(model->0),
    ensures
        rendered("{date}_{original}"@, original, cap, serial, model) == safe_name(
            cap.date + seq!['_'] + original,
        ),
{
    lemma_tokens();
    reveal_strlit("{date}_{original}");
    let date = cap.date;
    let template = "{date}_{original}"@;
    let rest = seq!['_'] + "{original}"@;
    let nothing = Seq::<char>::empty();
    assert(template =~= "{date}"@ + rest);
    let one = date + rest;
    // The first replacement leaves what it leaves of the text that has the date in it.
    assert(replaced(template, "{date}"@, date) == one) by {
        assert("{date}"@.is_prefix_of(template)) by {
            assert(template.subrange(0, 6) =~= "{date}"@);
        }
        assert(template.skip(6) =~= rest);
        lemma_replaced_not(seq!['_'], "{original}"@, nothing, "{date}"@, date);
        assert(seq!['_'] + "{original}"@ + nothing =~= rest);
    }
    let p = date + seq!['_'];
    assert(plain(p)) by {
        assert forall|i: int| 0 <= i < p.len() implies #[trigger] p[i] != '{' by {
            if i < date.len() {
                assert(p[i] == date[i]);
            }
        }
    }
    assert(one =~= p + "{original}"@ + nothing);
    assert(replaced(one, "{date}"@, date) == one) by {
        lemma_replaced_not(p, "{original}"@, nothing, "{date}"@, date);
    }
    each_token_stands_for_its_value(p, nothing, original, cap, serial, model);
    assert(rendered(template, original, cap, serial, model) == rendered(
        one,
        original,
        cap,
        serial,
        model,
    ));
    assert(p + original + nothing =~= date + seq!['_'] + original);
}

proof fn lemma_removed(s: Seq<char>, c: char)
    ensures
        !replaced(s, seq![c], seq![]).contains(c),
        forall|x: char| !s.contains(x) ==> !(#[trigger] replaced(s, seq![c], seq![]).contains(x)),
        !s.contains(c) ==> replaced(s, seq![c], seq![]) == s,
    decreases s.len(),
{
    let none = Seq::<char>::empty();
    let r = replaced(s, seq![c], none);
    if s.len() == 0 {
        assert(r =~= s);
    } else {
        let t = s.skip(1);
        lemma_removed(t, c);
        let rt = replaced(t, seq![c], none);
        assert(s =~= seq![s[0]] + t);
        assert forall|x: char| t.contains(x) implies s.contains(x) by {
            let i = choose|i: int| 0 <= i < t.len() && t[i] == x;
            assert(s[i + 1] == x);
        }
        assert(s.contains(s[0]));
        if s[0] == c {
            assert(seq![c].is_prefix_of(s)) by {
                assert(s.subrange(0, 1) =~= seq![c]);
            }
            assert(r =~= rt);
        } else {
            assert(!seq![c].is_prefix_of(s)) by {
                if seq![c].is_prefix_of(s) {
                    assert(s.subrange(0, 1)[0] == s[0]);
                }
            }
            assert(r == seq![s[0]] + rt);
            assert forall|x: char| r.contains(x) implies x == s[0] || rt.contains(x) by {
                let i = choose|i: int| 0 <= i < r.len() && r[i] == x;
                if i > 0 {
                    assert(rt[i - 1] == x);
                }
            }
            if !s.contains(c) {
                assert(r =~= s);
            }
        }
    }
}

proof fn lemma_comma_keeps(s: Seq<char>, x: char)
    requires
        x != '}',
        !s.contains(x),
    ensures
        !replaced(s, ",}"@, "}"@).contains(x),
    decreases s.len(),
{
    reveal_strlit(",}");
    reveal_strlit("}");
    let pat = ",}"@;
    let r = replaced(s, pat, "}"@);
    if s.len() > 0 {
        let k = if pat.is_prefix_of(s) {
            2int
        } else {
            1int
        };
        let head = if pat.is_prefix_of(s) {
            "}"@
        } else {
            seq![s[0]]
        };
        let t = s.skip(k);
        assert forall|i: int| 0 <= i < t.len() implies #[trigger] t[i] != x by {
            assert(t[i] == s[i + k]);
            assert(s.contains(s[i + k]));
        }
        assert(s.contains(s[0]));
        lemma_comma_keeps(t, x);
        let rt = replaced(t, pat, "}"@);
        assert(r == head + rt);
        if r.contains(x) {
            let i = choose|i: int| 0 <= i < r.len() && r[i] == x;
            if i > 0 {
                assert(rt[i - 1] == x);
                assert(rt.contains(x));
            }
        }
    } else {
        assert(r =~= s);
    }
}

/// What is read of a version file has no line breaks left in it, and a text without line
/// breaks and commas is read as it is.
pub proof fn a_version_file_loses_its_line_breaks(text: Seq<char>)
    ensures
        !version_json(text).contains('\n'),
        !version_json(text).contains('\r'),
        !text.contains('\n') && !text.contains('\r') && !text.contains(',') ==> version_json(text)
            == text,
{
    reveal_strlit("\n");
    reveal_strlit("\r");
    reveal_strlit(",}");
    assert("\n"@ =~= seq!['\n']);
    assert("\r"@ =~= seq!['\r']);
    let a = replaced(text, "\n"@, seq![]);
    let b = replaced(a, "\r"@, seq![]);
    lemma_removed(text, '\n');
    lemma_removed(a, '\r');
    lemma_comma_keeps(b, '\n');
    lemma_comma_keeps(b, '\r');
    if !text.contains('\n') && !text.contains('\r') && !text.contains(',') {
        assert forall|j: int| 0 <= j < b.len() implies #[trigger] b[j] != ",}"@[0] by {
            assert(b.contains(b[j]));
        }
        lemma_replaced_passes(b, ",}"@, "}"@, b.len() as int);
        assert(b.skip(b.len() as int).len() == 0);
        assert(b.take(b.len() as int) + b.skip(b.len() as int) =~= b);
    }
}

// ---- names ------------------------------------------------------------------

/// A name that is taken gets its number before its extension, or at its end where it has
/// none.
pub proof fn a_number_goes_before_the_extension(stem: Seq<char>, ext: Seq<char>, n: nat)
    requires
        !ext.contains('.'),
    ensures
        numbered(stem + seq!['.'] + ext, n) == stem + "_"@ + crate::text::decimal(n) + "."@ + ext,
        !stem.contains('.') ==> numbered(stem, n) == stem + "_"@ + crate::text::decimal(n),
{
    lemma_extension(stem, ext);
    if !stem.contains('.') {
        lemma_last_index(stem, '.');
        let k = crate::text::last_index(stem, '.');
        if k >= 0 {
            assert(stem.contains(stem[k]));
        }
    }
}

/// Making a name safe changes separators and NUL to underscores and nothing else, and never
/// gives an empty name or one that stands for a directory.
pub proof fn a_safe_name_keeps_the_rest(name: Seq<char>, i: int)
    requires
        0 <= i < name.len(),
        name != "."@,
        name != ".."@,
    ensures
        safe_name(name).len() == name.len(),
        safe_name(name)[i] == (if name[i] == '/' || name[i] == '\\' || name[i] == '\0' {
            '_'
        } else {
            name[i]
        }),
{
    reveal_strlit(".");
    reveal_strlit("..");
    reveal_strlit("_");
    let cleaned = Seq::new(name.len(), |k: int| crate::naming::safe_char(name[k]));
    assert(cleaned.len() == name.len());
    if cleaned == "."@ {
        assert(cleaned[0] == '.');
        assert(name =~= "."@);
    }
    if cleaned == ".."@ {
        assert(cleaned[0] == '.' && cleaned[1] == '.');
        assert(name =~= ".."@);
    }
}

/// A path below a directory is the directory, one separator and the name.
pub proof fn a_path_has_one_separator(base: Seq<char>, name: Seq<char>)
    requires
        base.len() > 0,
        name.len() > 0,
        name[0] != '/',
    ensures
        base.last() != '/' ==> path_join(base, name) == base + seq!['/'] + name,
        base.last() == '/' ==> path_join(base, name) == base + name,
{
    assert(base.push('/') + name =~= base + seq!['/'] + name);
}

// ---- capture times ----------------------------------------------------------

proof fn lemma_two_cuts(a: Seq<char>, b: Seq<char>, c: Seq<char>)
    requires
        all_digits(a),
        all_digits(b),
        all_digits(c),
    ensures
        pieces(a + ":"@ + b + ":"@ + c, ':') == seq![a, b, c],
        three_numbers(a + ":"@ + b + ":"@ + c),
{
    reveal_strlit(":");
    let s = a + ":"@ + b + ":"@ + c;
    let i = a.len() as int;
    assert forall|j: int| 0 <= j < i implies s[j] != ':' by {
        assert(is_digit(a[j]));
    }
    lemma_first_index_is(s, ':', i);
    let t = b + ":"@ + c;
    assert(s.skip(i + 1) =~= t);
    assert(s.take(i) =~= a);
    let k = b.len() as int;
    assert forall|j: int| 0 <= j < k implies t[j] != ':' by {
        assert(is_digit(b[j]));
    }
    lemma_first_index_is(t, ':', k);
    assert(t.skip(k + 1) =~= c);
    assert(t.take(k) =~= b);
    assert forall|j: int| 0 <= j < c.len() implies c[j] != ':' by {
        assert(is_digit(c[j]));
    }
    lemma_first_index_is(c, ':', c.len() as int);
    assert(pieces(c, ':') =~= seq![c]);
    assert(pieces(t, ':') =~= seq![b, c]);
    assert(pieces(s, ':') =~= seq![a, b, c]);
}

/// An EXIF text `YYYY:MM:DD HH:MM:SS` stands for the date with hyphens and the time without
/// separators, whatever its digits.
pub proof fn an_exif_text_reads_as_its_date(
    year: Seq<char>,
    month: Seq<char>,
    day: Seq<char>,
    hour: Seq<char>,
    minute: Seq<char>,
    second: Seq<char>,
)
    requires
        all_digits(year),
        all_digits(month),
        all_digits(day),
        all_digits(hour),
        all_digits(minute),
        all_digits(second),
    ensures
        exif_capture(
            (year + ":"@ + month + ":"@ + day) + " "@ + (hour + ":"@ + minute + ":"@ + second),
        ) == Some(
            Captured {
                date: year + "-"@ + month + "-"@ + day,
                time: hour + minute + second,
            },
        ),
{
    reveal_strlit(":");
    reveal_strlit(" ");
    let date = year + ":"@ + month + ":"@ + day;
    let time = hour + ":"@ + minute + ":"@ + second;
    let s = date + " "@ + time;
    let i = date.len() as int;
    assert forall|j: int| 0 <= j < i implies s[j] != ' ' by {
        assert(s[j] == date[j]);
        if j < year.len() {
            assert(is_digit(year[j]));
        } else if year.len() < j < year.len() + 1 + month.len() {
            assert(is_digit(month[j - year.len() - 1]));
        } else if j > year.len() + 1 + month.len() {
            assert(is_digit(day[j - year.len() - month.len() - 2]));
        }
    }
    lemma_first_index_is(s, ' ', i);
    assert(s.take(i) =~= date);
    assert(s.skip(i + 1) =~= time);
    lemma_two_cuts(year, month, day);
    lemma_two_cuts(hour, minute, second);
}

/// The date and the time of every file that is not dated by EXIF are those of the local
/// clock of the machine at its modification time: of every file that is no photo, and of
/// every photo without an EXIF text that can be read. A photo with one has that date.
pub proof fn undated_files_have_the_time_of_the_clock(
    files: Seq<CardFile<Seq<char>>>,
    caps: Seq<Captured<Seq<char>>>,
    i: int,
)
    requires
        captures_match(files, caps),
        0 <= i < files.len(),
    ensures
        caps.len() == files.len(),
        ({
            let f = files[i];
            let dated = kind_of(f.name) == MediaKind::Photo && f.exif is Some && exif_capture(
                f.exif->0,
            ) is Some;
            &&& dated ==> caps[i] == exif_capture(f.exif->0)->0
            &&& !dated && in_calendar(f.mtime_unix as int) ==> clock_gives(f.mtime_unix, caps[i])
            &&& !dated && !in_calendar(f.mtime_unix as int) ==> clock_gives(0, caps[i])
        }),
{
    let f = files[i];
    if photo_capture(kind_of(f.name), f.exif) is None {
        a_local_time_is_that_of_the_clock(f.mtime_unix, caps[i]);
    }
}

/// The date and the time of every file on a camera are those of the local clock of the
/// machine at the time at which the camera says it was created.
pub proof fn camera_files_have_the_time_of_the_clock(
    media: Seq<RemoteMedia<Seq<char>>>,
    caps: Seq<Captured<Seq<char>>>,
    i: int,
)
    requires
        local_times(media, caps),
        0 <= i < media.len(),
    ensures
        caps.len() == media.len(),
        in_calendar(media[i].captured_unix as int) ==> clock_gives(media[i].captured_unix, caps[i]),
        !in_calendar(media[i].captured_unix as int) ==> clock_gives(0, caps[i]),
{
    assert(local_capture(media[i].captured_unix, caps[i]));
    a_local_time_is_that_of_the_clock(media[i].captured_unix, caps[i]);
}

// ---- plans ------------------------------------------------------------------

/// The ledger is asked for a file by the serial number of its card (`unknown` without one),
/// its name, its size and its time.
pub proof fn a_card_file_is_known_by_all_of_it(cx: PlanContext, f: CardFile<Seq<char>>)
    ensures
        ({
            let k = cx.key(f);
            &&& k.name == f.name && k.size == f.size && k.mtime_unix == f.mtime_unix
            &&& cx.serial is Some ==> k.serial == cx.serial->0
            &&& cx.serial is None ==> k.serial == "unknown"@
        }),
{
}

/// Every planned copy is named by the template for its own capture time, and goes to the
/// first path below the destination that neither exists nor is planned before it: the path
/// of that name, where that is free.
pub proof fn a_planned_copy_is_named_for_its_capture(
    cx: PlanContext,
    files: Seq<CardFile<Seq<char>>>,
    caps: Seq<Captured<Seq<char>>>,
    j: int,
)
    requires
        files.len() <= usize::MAX,
        0 <= j < cx.planned(files, caps).len(),
    ensures
        ({
            let plan = cx.planned(files, caps);
            let p = plan[j].position as int;
            let name = rendered(cx.template, files[p].name, caps[p], cx.serial, cx.model);
            &&& 0 <= p < files.len()
            &&& plan[j].kind == kind_of(files[p].name)
            &&& plan[j].canonical_dest_path == path_join(cx.dest_root, name)
            &&& plan[j].dest_name == file_name_of(plan[j].dest_path)
            &&& first_free(
                cx.dest_root,
                name,
                cx.existing,
                plan_paths(plan.take(j)),
                plan[j].dest_path,
            )
        }),
    decreases files.len(),
{
    let head = files.drop_last();
    let rest = cx.planned(head, caps);
    let plan = cx.planned(files, caps);
    let n = files.len() - 1;
    if j < rest.len() {
        a_planned_copy_is_named_for_its_capture(cx, head, caps, j);
        assert(plan[j] == rest[j]);
        assert(plan.take(j) =~= rest.take(j));
        assert(head[plan[j].position as int] == files[plan[j].position as int]);
    } else {
        let name = rendered(cx.template, files[n].name, caps[n], cx.serial, cx.model);
        free_path_is_first_free(cx.dest_root, name, cx.existing, plan_paths(rest));
        assert(plan.take(j) =~= rest);
    }
}

/// By the default template a planned copy that is not dated by EXIF is named by the date
/// that the local clock of the machine gives for its modification time, an underscore and
/// its own name.
pub proof fn a_copy_is_named_by_the_date_of_the_clock(
    cx: PlanContext,
    files: Seq<CardFile<Seq<char>>>,
    caps: Seq<Captured<Seq<char>>>,
    j: int,
)
    requires
        files.len() <= usize::MAX,
        captures_match(files, caps),
        0 <= j < cx.planned(files, caps).len(),
        cx.template == "{date}_{original}"@,
        cx.serial is Some ==> plain(cx.serial->0),
        cx.model is Some ==> plain(cx.model->0),
        ({
            let p = cx.planned(files, caps)[j].position as int;
            &&& plain(files[p].name) && plain(caps[p].date) && plain(caps[p].time)
            &&& kind_of(files[p].name) != MediaKind::Photo || files[p].exif is None
            &&& in_calendar(files[p].mtime_unix as int)
            &&& single_component(caps[p].date + seq!['_'] + files[p].name)
        }),
    ensures
        exists|c: Captured<Seq<char>>| #[trigger]
            clock_gives(files[cx.planned(files, caps)[j].position as int].mtime_unix, c) && cx.planned(
                files,
                caps,
            )[j].canonical_dest_path == path_join(
                cx.dest_root,
                c.date + seq!['_'] + files[cx.planned(files, caps)[j].position as int].name,
            ),
{
    a_planned_copy_is_named_for_its_capture(cx, files, caps, j);
    let p = cx.planned(files, caps)[j].position as int;
    undated_files_have_the_time_of_the_clock(files, caps, p);
    a_default_name_begins_with_the_date(files[p].name, caps[p], cx.serial, cx.model);
    safe_name_keeps_components(caps[p].date + seq!['_'] + files[p].name);
    assert(clock_gives(files[p].mtime_unix, caps[p]));
}

/// A file on a camera is left out if and only if the ledger knows it, or it is a proxy or a
/// thumbnail that is not asked for. The ledger is asked by the serial number of the camera
/// and by the name, the size and the time of the file.
pub proof fn a_camera_file_is_left_out_when(cx: WiredContext, m: RemoteMedia<Seq<char>>)
    ensures
        cx.skips(m) <==> cx.ledger.has(cx.key(m)) || (kind_of(m.name) == MediaKind::Proxy
            && !cx.cfg.include_proxies) || (kind_of(m.name) == MediaKind::Thumbnail
            && !cx.cfg.include_thumbnails),
        cx.key(m).serial == cx.serial,
        cx.key(m).name == m.name,
        cx.key(m).size == m.size,
        cx.key(m).mtime_unix == m.captured_unix,
{
}

/// Every planned download is of a listed file that is not left out, is named by the template
/// for the time of that file, and goes to the first path below the destination that neither
/// exists nor is planned before it.
pub proof fn a_planned_download_is_named_for_its_time(
    cx: WiredContext,
    media: Seq<RemoteMedia<Seq<char>>>,
    caps: Seq<Captured<Seq<char>>>,
    j: int,
)
    requires
        0 <= j < cx.planned(media, caps).len(),
    ensures
        exists|p: int|
            0 <= p < media.len() && cx.planned(media, caps)[j].media == #[trigger] media[p]
                && !cx.skips(media[p]) && cx.planned(media, caps)[j].dest_name == rendered(
                cx.cfg.filename_template,
                media[p].name,
                caps[p],
                Some(cx.serial),
                cx.model,
            ),
        first_free(
            cx.cfg.dest_root,
            cx.planned(media, caps)[j].dest_name,
            cx.existing,
            wired_paths(cx.planned(media, caps).take(j)),
            cx.planned(media, caps)[j].dest_path,
        ),
    decreases media.len(),
{
    let head = media.drop_last();
    let rest = cx.planned(head, caps);
    let plan = cx.planned(media, caps);
    let n = media.len() - 1;
    if j < rest.len() {
        a_planned_download_is_named_for_its_time(cx, head, caps, j);
        assert(plan[j] == rest[j]);
        assert(plan.take(j) =~= rest.take(j));
        let p = choose|p: int|
            0 <= p < head.len() && rest[j].media == #[trigger] head[p] && !cx.skips(head[p])
                && rest[j].dest_name == rendered(
                cx.cfg.filename_template,
                head[p].name,
                caps[p],
                Some(cx.serial),
                cx.model,
            );
        assert(media[p] == head[p]);
    } else {
        let name = rendered(
            cx.cfg.filename_template,
            media[n].name,
            caps[n],
            Some(cx.serial),
            cx.model,
        );
        free_path_is_first_free(cx.cfg.dest_root, name, cx.existing, wired_paths(rest));
        assert(plan.take(j) =~= rest);
        assert(plan[j].media == media[n]);
    }
}

/// A plan goes by the template and the destination of the configuration, and by what is known
/// of the card.
pub proof fn a_plan_goes_by_the_configuration(
    cfg: Config<Seq<char>>,
    ledger: LedgerModel,
    serial: Option<Seq<char>>,
    model: Option<Seq<char>>,
    existing: Seq<Seq<char>>,
)
    ensures
        ({
            let cx = plan_context(cfg, ledger, serial, model, existing);
            &&& cx.template == cfg.filename_template && cx.dest_root == cfg.dest_root
            &&& cx.ledger == ledger && cx.serial == serial && cx.model == model
            &&& cx.existing == existing
        }),
{
}

/// The name of a path is what stands behind its last separator, and all of it without one.
pub proof fn a_path_ends_with_its_name(dir: Seq<char>, name: Seq<char>)
    requires
        !name.contains('/'),
    ensures
        file_name_of(dir + seq!['/'] + name) == name,
        file_name_of(name) == name,
{
    let p = dir + seq!['/'] + name;
    let k = dir.len() as int;
    assert forall|j: int| k < j < p.len() implies p[j] != '/' by {
        assert(p[j] == name[j - k - 1]);
        assert(name.contains(name[j - k - 1]));
    }
    lemma_last_index_is(p, '/', k);
    assert(p.skip(k + 1) =~= name);
    lemma_last_index(name, '/');
    let i = crate::text::last_index(name, '/');
    if i >= 0 {
        assert(name.contains(name[i]));
    }
}

/// The paths that are tried for a name are the name itself, and then the name with one, two and
/// so on before its extension. The first that is free is taken.
pub proof fn names_are_tried_in_turn(
    dir: Seq<char>,
    stem: Seq<char>,
    ext: Seq<char>,
    existing: Seq<Seq<char>>,
    reserved: Seq<Seq<char>>,
    n: nat,
)
    requires
        !ext.contains('.'),
    ensures
        ({
            let name = stem + seq!['.'] + ext;
            let plain_path = path_join(dir, name);
            let first_path = path_join(
                dir,
                stem + "_"@ + crate::text::decimal(1) + "."@ + ext,
            );
            let free = free_path(dir, name, existing, reserved);
            &&& n > 0 ==> candidate(dir, name, n) == path_join(
                dir,
                stem + "_"@ + crate::text::decimal(n) + "."@ + ext,
            )
            &&& !existing.contains(plain_path) && !reserved.contains(plain_path) ==> free
                == plain_path
            &&& (existing.contains(plain_path) || reserved.contains(plain_path))
                && !existing.contains(first_path) && !reserved.contains(first_path) ==> free
                == first_path
            &&& !existing.contains(free) && !reserved.contains(free)
        }),
{
    let name = stem + seq!['.'] + ext;
    a_number_goes_before_the_extension(stem, ext, n);
    a_number_goes_before_the_extension(stem, ext, 1);
    free_path_is_first_free(dir, name, existing, reserved);
    let free = free_path(dir, name, existing, reserved);
    let k = choose|k: nat| #[trigger]
        candidate(dir, name, k) == free && !taken(free, existing, reserved) && (forall|m: nat|
            m < k ==> taken(#[trigger] candidate(dir, name, m), existing, reserved));
    assert(candidate(dir, name, 0) == path_join(dir, name));
    if !taken(path_join(dir, name), existing, reserved) {
        if k > 0 {
            assert(taken(candidate(dir, name, 0), existing, reserved));
        }
    } else if !taken(candidate(dir, name, 1), existing, reserved) {
        if k > 1 {
            assert(taken(candidate(dir, name, 1), existing, reserved));
        }
    }
}

proof fn lemma_digits_concat(a: Seq<char>, b: Seq<char>)
    requires
        all_digits(a),
        all_digits(b),
    ensures
        all_digits(a + b),
{
    let s = a + b;
    assert forall|i: int| 0 <= i < s.len() implies is_digit(#[trigger] s[i]) by {
        if i < a.len() {
            assert(s[i] == a[i]);
        } else {
            assert(s[i] == b[i - a.len()]);
        }
    }
}

/// An EXIF text is read only if it is digits in two groups of three: the time that comes of it
/// holds nothing but digits, and its date nothing but digits and hyphens.
pub proof fn only_digits_make_a_capture_time(s: Seq<char>)
    ensures
        exif_capture(s) matches Some(c) ==> all_digits(c.time),
        exif_capture(s) matches Some(c) ==> forall|i: int|
            0 <= i < c.date.len() ==> is_digit(#[trigger] c.date[i]) || c.date[i] == '-',
        exif_capture(s) is Some ==> s.contains(' ') && s.contains(':'),
{
    if let Some(c) = exif_capture(s) {
        reveal_strlit("-");
        crate::text_laws::a_cut_text_is_whole(s, ' ');
        let (date, time) = crate::text::cut_first(s, ' ')->0;
        let d = pieces(date, ':');
        let t = pieces(time, ':');
        lemma_digits_concat(t[0], t[1]);
        lemma_digits_concat(t[0] + t[1], t[2]);
        assert forall|i: int| 0 <= i < c.date.len() implies is_digit(#[trigger] c.date[i])
            || c.date[i] == '-' by {
            let a = d[0].len() as int;
            let b = d[1].len() as int;
            if i < a {
                assert(c.date[i] == d[0][i]);
                assert(is_digit(d[0][i]));
            } else if a < i < a + 1 + b {
                assert(c.date[i] == d[1][i - a - 1]);
                assert(is_digit(d[1][i - a - 1]));
            } else if i > a + 1 + b {
                assert(c.date[i] == d[2][i - a - b - 2]);
                assert(is_digit(d[2][i - a - b - 2]));
            }
        }
        assert(s.contains(':')) by {
            crate::text::lemma_first_index(date, ':');
            let k = crate::text::first_index(date, ':');
            if k >= date.len() {
                assert(pieces(date, ':') =~= seq![date]);
            }
            assert(date[k] == ':');
            assert(s[k] == date[k]);
        }
    }
}

/// Tokens are put in from the left to the right of their list: date, time, name, extension,
/// camera and model. So a token in the name of a file is kept if it comes before the name in
/// that list, and stands for its value if it comes after it.
pub proof fn tokens_in_a_name_follow_their_order(
    x: Seq<char>,
    y: Seq<char>,
    cap: Captured<Seq<char>>,
    serial: Seq<char>,
    model: Seq<char>,
)
    requires
        plain(x),
        plain(y),
        plain(serial),
        plain(model),
    ensures
        ({
            let all = "{original}"@;
            let s = Some(serial);
            let m = Some(model);
            &&& rendered(all, x + "{date}"@ + y, cap, s, m) == safe_name(x + "{date}"@ + y)
            &&& rendered(all, x + "{time}"@ + y, cap, s, m) == safe_name(x + "{time}"@ + y)
            &&& rendered(all, x + "{camera}"@ + y, cap, s, m) == safe_name(x + serial + y)
            &&& rendered(all, x + "{model}"@ + y, cap, s, m) == safe_name(x + model + y)
        }),
{
    lemma_name_token(x, "{date}"@, y, "{date}"@, cap, serial, model);
    lemma_name_token(x, "{time}"@, y, "{time}"@, cap, serial, model);
    lemma_name_token(x, "{camera}"@, y, serial, cap, serial, model);
    lemma_name_token(x, "{model}"@, y, model, cap, serial, model);
}

proof fn lemma_name_token(
    x: Seq<char>,
    tok: Seq<char>,
    y: Seq<char>,
    v: Seq<char>,
    cap: Captured<Seq<char>>,
    serial: Seq<char>,
    model: Seq<char>,
)
    requires
        plain(x),
        plain(y),
        plain(serial),
        plain(model),
        (tok == "{date}"@ && v == tok) || (tok == "{time}"@ && v == tok) || (tok == "{camera}"@ && v
            == serial) || (tok == "{model}"@ && v == model),
    ensures
        rendered("{original}"@, x + tok + y, cap, Some(serial), Some(model)) == safe_name(
            x + v + y,
        ),
{
    lemma_tokens();
    let none = Seq::<char>::empty();
    let all = "{original}"@;
    let name = x + tok + y;
    let ext = extension(name);
    assert(none + all + none =~= all);
    lemma_replaced_not(none, all, none, "{date}"@, cap.date);
    lemma_replaced_not(none, all, none, "{time}"@, cap.time);
    lemma_replaced_once(none, all, none, name);
    assert(none + name + none =~= name);
    lemma_replaced_not(x, tok, y, "{ext}"@, ext);
    if tok == "{date}"@ || tok == "{time}"@ {
        lemma_replaced_not(x, tok, y, "{camera}"@, serial);
        lemma_replaced_not(x, tok, y, "{model}"@, model);
    } else if tok == "{camera}"@ {
        lemma_replaced_once(x, tok, y, serial);
        let r = x + serial + y;
        assert(plain(r)) by {
            assert forall|i: int| 0 <= i < r.len() implies #[trigger] r[i] != '{' by {
                if i < x.len() {
                    assert(r[i] == x[i]);
                } else if i < x.len() + serial.len() {
                    assert(r[i] == serial[i - x.len()]);
                } else {
                    assert(r[i] == y[i - x.len() - serial.len()]);
                }
            }
        }
        lemma_replaced_plain(r, "{model}"@, model);
    } else {
        lemma_replaced_not(x, tok, y, "{camera}"@, serial);
        lemma_replaced_once(x, tok, y, model);
    }
}

} // verus!
