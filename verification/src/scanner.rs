//! The plan of a run: which files of a card are copied, and to where.

use crate::capture::{local_capture, photo_capture, resolve_capture, Captured};
use crate::config::{clone_opt, Config};
use crate::gopro::{classify, is_gopro_media_folder, kind_of, FolderEntry, MediaKind};
use crate::ledger::{FileKey, Ledger, LedgerModel};
use crate::naming::{
    first_free_is_unique, free_path, free_path_is_first_free, render_name, rendered,
    resolve_collision, taken, untried_paths_do_not_matter,
};
use crate::paths::{join_path, path_join};
use crate::text::{
    arrange, arranged, cut_last, indices, opt_str_view, opt_view, or_text, rsplit_once, views,
};
use vstd::prelude::*;

verus! {

// ---- which files ------------------------------------------------------------

/// One entry of a media folder.
#[derive(Debug, PartialEq, Eq)]
pub struct FileEntry<S = String> {
    /// Its name, with a replacement for what is not valid Unicode.
    pub name: S,
    /// The bytes of its name, with one character for each. They tell names apart
    /// that are not valid Unicode.
    pub order: S,
    pub is_file: bool,
}

/// The names of folder entries; nothing for a name that is not valid Unicode.
pub open spec fn folder_names(entries: Seq<FolderEntry>) -> Seq<Seq<char>> {
    Seq::new(entries.len(), |i: int| or_text(opt_view(entries[i].name), seq![]))
}

/// Which folder entries are media folders.
pub open spec fn media_flags(entries: Seq<FolderEntry>) -> Seq<bool> {
    Seq::new(entries.len(), |i: int| entries[i].is_media_folder())
}

/// The media folders of a card, in the order in which they are scanned: the
/// indices of their entries, sorted by name.
pub fn media_folders(entries: &Vec<FolderEntry>) -> (r: Vec<usize>)
    ensures
        indices(r@) == arranged(folder_names(entries@), media_flags(entries@), entries@.len()),
{
    let mut names: Vec<String> = Vec::new();
    let mut keep: Vec<bool> = Vec::new();
    let mut i: usize = 0;
    while i < entries.len()
        invariant
            i <= entries@.len(),
            names@.len() == i,
            keep@.len() == i,
            forall|k: int| 0 <= k < i ==> (#[trigger] names@[k])@ == folder_names(entries@)[k],
            forall|k: int| 0 <= k < i ==> #[trigger] keep@[k] == media_flags(entries@)[k],
        decreases entries.len() - i,
    {
        match &entries[i].name {
            Some(n) => {
                names.push(n.clone());
                keep.push(entries[i].is_dir && is_gopro_media_folder(n.as_str()));
            },
            None => {
                names.push(String::new());
                keep.push(false);
                assert(names@[i as int]@ =~= seq![]);
            },
        }
        i += 1;
    }
    assert(views(names@) =~= folder_names(entries@));
    assert(keep@ =~= media_flags(entries@));
    arrange(&names, &keep)
}

/// True of a kind that is copied under this configuration.
pub open spec fn wanted(kind: MediaKind, include_proxies: bool, include_thumbnails: bool) -> bool {
    &&& kind == MediaKind::Proxy ==> include_proxies
    &&& kind == MediaKind::Thumbnail ==> include_thumbnails
}

/// What the entries of a media folder sort by.
pub open spec fn entry_orders(entries: Seq<FileEntry>) -> Seq<Seq<char>> {
    Seq::new(entries.len(), |i: int| entries[i].order@)
}

/// Bytes as a text, with one character for each. Such texts sort as the bytes do.
pub fn byte_order(raw: &[u8]) -> (r: String)
    ensures
        r@ == Seq::new(raw@.len(), |i: int| raw@[i] as char),
{
    let mut s = String::new();
    let mut i: usize = 0;
    while i < raw.len()
        invariant
            i <= raw@.len(),
            s@ == Seq::new(i as nat, |k: int| raw@[k] as char),
        decreases raw.len() - i,
    {
        s.push(raw[i] as char);
        assert(s@ =~= Seq::new((i + 1) as nat, |k: int| raw@[k] as char));
        i += 1;
    }
    s
}

/// Which entries of a media folder are files to copy.
pub open spec fn wanted_flags(entries: Seq<FileEntry>, cfg: Config<Seq<char>>) -> Seq<bool> {
    Seq::new(
        entries.len(),
        |i: int|
            entries[i].is_file && wanted(
                kind_of(entries[i].name@),
                cfg.include_proxies,
                cfg.include_thumbnails,
            ),
    )
}

/// True of a kind that is copied under this configuration.
pub fn is_wanted(kind: MediaKind, cfg: &Config) -> (r: bool)
    ensures
        r == wanted(kind, cfg@.include_proxies, cfg@.include_thumbnails),
{
    (!kind.is_proxy() || cfg.include_proxies) && (!kind.is_thumbnail() || cfg.include_thumbnails)
}

/// The files of a media folder that are copied, in the order in which they are
/// scanned: the indices of their entries, sorted by the bytes of their names.
pub fn media_files(entries: &Vec<FileEntry>, cfg: &Config) -> (r: Vec<usize>)
    ensures
        indices(r@) == arranged(entry_orders(entries@), wanted_flags(entries@, cfg@), entries@.len()),
{
    let mut names: Vec<String> = Vec::new();
    let mut keep: Vec<bool> = Vec::new();
    let mut i: usize = 0;
    while i < entries.len()
        invariant
            i <= entries@.len(),
            names@.len() == i,
            keep@.len() == i,
            forall|k: int| 0 <= k < i ==> (#[trigger] names@[k])@ == entry_orders(entries@)[k],
            forall|k: int| 0 <= k < i ==> #[trigger] keep@[k] == wanted_flags(entries@, cfg@)[k],
        decreases entries.len() - i,
    {
        names.push(entries[i].order.clone());
        keep.push(entries[i].is_file && is_wanted(classify(entries[i].name.as_str()), cfg));
        i += 1;
    }
    assert(views(names@) =~= entry_orders(entries@));
    assert(keep@ =~= wanted_flags(entries@, cfg@));
    arrange(&names, &keep)
}

// ---- the plan ---------------------------------------------------------------

/// A file of a card, as it is found.
#[derive(Debug, PartialEq, Eq)]
pub struct CardFile<S = String> {
    pub src: S,
    pub name: S,
    pub size: u64,
    pub mtime_unix: i64,
    /// The EXIF time of a photo, if it has one.
    pub exif: Option<S>,
}

impl View for CardFile<String> {
    type V = CardFile<Seq<char>>;

    open spec fn view(&self) -> CardFile<Seq<char>> {
        CardFile {
            src: self.src@,
            name: self.name@,
            size: self.size,
            mtime_unix: self.mtime_unix,
            exif: opt_view(self.exif),
        }
    }
}

impl Clone for CardFile<String> {
    fn clone(&self) -> (r: Self)
        ensures
            r@ == self@,
    {
        CardFile {
            src: self.src.clone(),
            name: self.name.clone(),
            size: self.size,
            mtime_unix: self.mtime_unix,
            exif: clone_opt(&self.exif),
        }
    }
}

/// The views of a list of files.
pub open spec fn card_file_views(v: Seq<CardFile>) -> Seq<CardFile<Seq<char>>> {
    Seq::new(v.len(), |i: int| v[i]@)
}

/// The views of a list of capture times.
pub open spec fn captured_views(v: Seq<Captured>) -> Seq<Captured<Seq<char>>> {
    Seq::new(v.len(), |i: int| v[i]@)
}

/// A file that is to be copied.
#[derive(Debug, PartialEq, Eq)]
pub struct PlannedCopy<S = String> {
    pub src: S,
    pub name: S,
    pub kind: MediaKind,
    pub size: u64,
    pub mtime_unix: i64,
    pub dest_name: S,
    pub dest_path: S,
    /// The path before a collision was resolved. A file of the right size there
    /// was copied by a run that ended before it could record it.
    pub canonical_dest_path: S,
    /// The position of the file in the list that the plan was made from.
    pub position: usize,
}

impl View for PlannedCopy<String> {
    type V = PlannedCopy<Seq<char>>;

    open spec fn view(&self) -> PlannedCopy<Seq<char>> {
        PlannedCopy {
            src: self.src@,
            name: self.name@,
            kind: self.kind,
            size: self.size,
            mtime_unix: self.mtime_unix,
            dest_name: self.dest_name@,
            dest_path: self.dest_path@,
            canonical_dest_path: self.canonical_dest_path@,
            position: self.position,
        }
    }
}

/// The views of a plan.
pub open spec fn plan_views(v: Seq<PlannedCopy>) -> Seq<PlannedCopy<Seq<char>>> {
    Seq::new(v.len(), |i: int| v[i]@)
}

/// The destinations of a plan.
pub open spec fn plan_paths(plan: Seq<PlannedCopy<Seq<char>>>) -> Seq<Seq<char>> {
    Seq::new(plan.len(), |i: int| plan[i].dest_path)
}

/// What a plan depends on besides the files.
pub struct PlanContext {
    pub template: Seq<char>,
    pub dest_root: Seq<char>,
    pub ledger: LedgerModel,
    pub serial: Option<Seq<char>>,
    pub model: Option<Seq<char>>,
    /// The paths below the destination that exist.
    pub existing: Seq<Seq<char>>,
}

/// The last component of a path.
pub open spec fn file_name_of(path: Seq<char>) -> Seq<char> {
    match cut_last(path, '/') {
        Some((_, name)) => name,
        None => path,
    }
}

impl PlanContext {
    /// The name under which the ledger knows a file of this card. A card without
    /// a serial number is known as `unknown`.
    pub open spec fn key(self, file: CardFile<Seq<char>>) -> FileKey {
        FileKey {
            serial: or_text(self.serial, "unknown"@),
            name: file.name,
            size: file.size,
            mtime_unix: file.mtime_unix,
        }
    }

    /// The copy that is planned of a file, with the destinations that are planned
    /// already.
    pub open spec fn copy_of(
        self,
        file: CardFile<Seq<char>>,
        cap: Captured<Seq<char>>,
        reserved: Seq<Seq<char>>,
        position: usize,
    ) -> PlannedCopy<Seq<char>> {
        let name = rendered(self.template, file.name, cap, self.serial, self.model);
        let path = free_path(self.dest_root, name, self.existing, reserved);
        PlannedCopy {
            src: file.src,
            name: file.name,
            kind: kind_of(file.name),
            size: file.size,
            mtime_unix: file.mtime_unix,
            dest_name: file_name_of(path),
            dest_path: path,
            canonical_dest_path: path_join(self.dest_root, name),
            position,
        }
    }

    /// The plan for files with their capture times: each file that the ledger does
    /// not know, in order.
    pub open spec fn planned(
        self,
        files: Seq<CardFile<Seq<char>>>,
        caps: Seq<Captured<Seq<char>>>,
    ) -> Seq<PlannedCopy<Seq<char>>>
        decreases files.len(),
    {
        if files.len() == 0 {
            seq![]
        } else {
            let rest = self.planned(files.drop_last(), caps);
            let i = files.len() - 1;
            if self.ledger.has(self.key(files[i])) {
                rest
            } else {
                rest.push(self.copy_of(files[i], caps[i], plan_paths(rest), i as usize))
            }
        }
    }

    /// How many files the ledger knows.
    pub open spec fn known(self, files: Seq<CardFile<Seq<char>>>) -> nat
        decreases files.len(),
    {
        if files.len() == 0 {
            0
        } else {
            self.known(files.drop_last()) + if self.ledger.has(self.key(files.last())) {
                1nat
            } else {
                0nat
            }
        }
    }
}

/// The context of a plan.
pub open spec fn plan_context(
    cfg: Config<Seq<char>>,
    ledger: LedgerModel,
    serial: Option<Seq<char>>,
    model: Option<Seq<char>>,
    existing: Seq<Seq<char>>,
) -> PlanContext {
    PlanContext {
        template: cfg.filename_template,
        dest_root: cfg.dest_root,
        ledger,
        serial,
        model,
        existing,
    }
}

/// True of capture times that go with files: the EXIF time of a photo, where there
/// is one that can be read, and otherwise the local time of the file.
pub open spec fn captures_match(
    files: Seq<CardFile<Seq<char>>>,
    caps: Seq<Captured<Seq<char>>>,
) -> bool {
    &&& caps.len() == files.len()
    &&& forall|i: int|
        0 <= i < files.len() ==> match photo_capture(
            kind_of((#[trigger] files[i]).name),
            files[i].exif,
        ) {
            Some(c) => caps[i] == c,
            None => local_capture(files[i].mtime_unix, caps[i]),
        }
}

/// The last component of a path.
fn file_name(path: &str) -> (r: String)
    ensures
        r@ == file_name_of(path@),
{
    match rsplit_once(path, '/') {
        Some((_, name)) => name,
        None => path.to_owned(),
    }
}

/// The plan for files whose capture times are known, and how many files were left
/// out because the ledger knows them.
pub fn plan_copies(
    files: &Vec<CardFile>,
    caps: &Vec<Captured>,
    cfg: &Config,
    ledger: &Ledger,
    serial: Option<&str>,
    model: Option<&str>,
    existing: &Vec<String>,
) -> (r: (Vec<PlannedCopy>, usize))
    requires
        caps@.len() == files@.len(),
        existing@.len() + files@.len() < u32::MAX,
    ensures
        ({
            let cx = plan_context(
                cfg@,
                ledger@,
                opt_str_view(serial),
                opt_str_view(model),
                views(existing@),
            );
            &&& plan_views(r.0@) == cx.planned(card_file_views(files@), captured_views(caps@))
            &&& r.1 == cx.known(card_file_views(files@))
        }),
{
    let ghost cx = plan_context(
        cfg@,
        ledger@,
        opt_str_view(serial),
        opt_str_view(model),
        views(existing@),
    );
    let ghost fs = card_file_views(files@);
    let ghost cs = captured_views(caps@);
    let serial_key: &str = match serial {
        Some(s) => s,
        None => "unknown",
    };
    let mut plan: Vec<PlannedCopy> = Vec::new();
    let mut reserved: Vec<String> = Vec::new();
    let mut skipped: usize = 0;
    let mut i: usize = 0;
    assert(fs.take(0) =~= seq![]);
    assert(plan_views(plan@) =~= seq![]);
    assert(views(reserved@) =~= plan_paths(seq![]));
    while i < files.len()
        invariant
            caps@.len() == files@.len(),
            existing@.len() + files@.len() < u32::MAX,
            i <= files@.len(),
            fs == card_file_views(files@),
            cs == captured_views(caps@),
            cx == plan_context(
                cfg@,
                ledger@,
                opt_str_view(serial),
                opt_str_view(model),
                views(existing@),
            ),
            serial_key@ == or_text(opt_str_view(serial), "unknown"@),
            plan_views(plan@) == cx.planned(fs.take(i as int), cs),
            views(reserved@) == plan_paths(plan_views(plan@)),
            reserved@.len() <= i,
            skipped == cx.known(fs.take(i as int)),
            skipped <= i,
        decreases files.len() - i,
    {
        let f = &files[i];
        proof {
            assert(fs.take(i + 1).drop_last() =~= fs.take(i as int));
            assert(fs.take(i + 1).last() == f@);
            assert(fs.take(i + 1)[i as int] == f@);
            assert(cs[i as int] == caps@[i as int]@);
        }
        if ledger.is_imported(serial_key, f.name.as_str(), f.size, f.mtime_unix) {
            skipped += 1;
        } else {
            let name = render_name(
                cfg.filename_template.as_str(),
                f.name.as_str(),
                &caps[i],
                serial,
                model,
            );
            let canonical = join_path(cfg.dest_root.as_str(), name.as_str());
            let path = resolve_collision(cfg.dest_root.as_str(), name.as_str(), existing, &reserved);
            proof {
                free_path_is_first_free(cx.dest_root, name@, cx.existing, views(reserved@));
                first_free_is_unique(
                    cx.dest_root,
                    name@,
                    cx.existing,
                    views(reserved@),
                    path@,
                    free_path(cx.dest_root, name@, cx.existing, views(reserved@)),
                );
            }
            let ghost plan_before = plan_views(plan@);
            let ghost reserved_before = views(reserved@);
            let item = PlannedCopy {
                src: f.src.clone(),
                name: f.name.clone(),
                kind: classify(f.name.as_str()),
                size: f.size,
                mtime_unix: f.mtime_unix,
                dest_name: file_name(path.as_str()),
                dest_path: path.clone(),
                canonical_dest_path: canonical,
                position: i,
            };
            reserved.push(path);
            plan.push(item);
            proof {
                assert(plan_views(plan@) =~= plan_before.push(item@));
                assert(views(reserved@) =~= reserved_before.push(path@));
                assert(plan_paths(plan_views(plan@)) =~= plan_paths(plan_before).push(path@));
            }
        }
        i += 1;
    }
    assert(fs.take(i as int) =~= fs);
    (plan, skipped)
}

/// Resolves when each file was captured.
pub fn resolve_captures(files: &Vec<CardFile>) -> (r: Vec<Captured>)
    ensures
        captures_match(card_file_views(files@), captured_views(r@)),
        r@.len() == files@.len(),
{
    let mut out: Vec<Captured> = Vec::new();
    let mut i: usize = 0;
    while i < files.len()
        invariant
            i <= files@.len(),
            out@.len() == i,
            forall|k: int|
                0 <= k < i ==> match photo_capture(
                    kind_of((#[trigger] files@[k])@.name),
                    files@[k]@.exif,
                ) {
                    Some(c) => out@[k]@ == c,
                    None => local_capture(files@[k]@.mtime_unix, out@[k]@),
                },
        decreases files.len() - i,
    {
        let f = &files[i];
        out.push(resolve_capture(&f.exif, classify(f.name.as_str()), f.mtime_unix));
        i += 1;
    }
    proof {
        let fs = card_file_views(files@);
        let cs = captured_views(out@);
        assert forall|k: int| 0 <= k < fs.len() implies match photo_capture(
            kind_of((#[trigger] fs[k]).name),
            fs[k].exif,
        ) {
            Some(c) => cs[k] == c,
            None => local_capture(fs[k].mtime_unix, cs[k]),
        } by {
            assert(fs[k] == files@[k]@);
        }
    }
    out
}

/// Plans the copies of the files of a card, in scan order, and counts the files
/// that the ledger knows already.
pub fn scan_with_skips(
    files: &Vec<CardFile>,
    cfg: &Config,
    ledger: &Ledger,
    serial: Option<&str>,
    model: Option<&str>,
    existing: &Vec<String>,
) -> (r: (Vec<PlannedCopy>, usize))
    requires
        existing@.len() + files@.len() < u32::MAX,
    ensures
        ({
            let cx = plan_context(
                cfg@,
                ledger@,
                opt_str_view(serial),
                opt_str_view(model),
                views(existing@),
            );
            &&& exists|caps: Seq<Captured<Seq<char>>>| #[trigger]
                captures_match(card_file_views(files@), caps) && plan_views(r.0@) == cx.planned(
                    card_file_views(files@),
                    caps,
                )
            &&& r.1 == cx.known(card_file_views(files@))
        }),
{
    let caps = resolve_captures(files);
    plan_copies(files, &caps, cfg, ledger, serial, model, existing)
}

/// Plans the copies of the files of a card, in scan order.
pub fn scan_card(
    files: &Vec<CardFile>,
    cfg: &Config,
    ledger: &Ledger,
    serial: Option<&str>,
    model: Option<&str>,
    existing: &Vec<String>,
) -> (r: Vec<PlannedCopy>)
    requires
        existing@.len() + files@.len() < u32::MAX,
    ensures
        ({
            let cx = plan_context(
                cfg@,
                ledger@,
                opt_str_view(serial),
                opt_str_view(model),
                views(existing@),
            );
            exists|caps: Seq<Captured<Seq<char>>>| #[trigger]
                captures_match(card_file_views(files@), caps) && plan_views(r@) == cx.planned(
                    card_file_views(files@),
                    caps,
                )
        }),
{
    scan_with_skips(files, cfg, ledger, serial, model, existing).0
}

// ---- laws -------------------------------------------------------------------

/// Every file is either planned or known to the ledger.
pub proof fn every_file_is_planned_or_known(
    cx: PlanContext,
    files: Seq<CardFile<Seq<char>>>,
    caps: Seq<Captured<Seq<char>>>,
)
    ensures
        cx.planned(files, caps).len() + cx.known(files) == files.len(),
    decreases files.len(),
{
    if files.len() > 0 {
        every_file_is_planned_or_known(cx, files.drop_last(), caps);
    }
}

/// A plan that was made knowing some of the paths that exist, and none of whose
/// destinations exists, is the plan that comes of knowing all of them.
pub proof fn a_looked_up_plan_is_right(
    cx: PlanContext,
    files: Seq<CardFile<Seq<char>>>,
    caps: Seq<Captured<Seq<char>>>,
    all: Seq<Seq<char>>,
)
    requires
        forall|p: Seq<char>| #[trigger] cx.existing.contains(p) ==> all.contains(p),
        forall|j: int|
            0 <= j < cx.planned(files, caps).len() ==> !all.contains(
                (#[trigger] cx.planned(files, caps)[j]).dest_path,
            ),
    ensures
        (PlanContext { existing: all, ..cx }).planned(files, caps) == cx.planned(files, caps),
    decreases files.len(),
{
    if files.len() > 0 {
        let head = files.drop_last();
        let rest = cx.planned(head, caps);
        let plan = cx.planned(files, caps);
        let i = files.len() - 1;
        assert forall|j: int| 0 <= j < rest.len() implies !all.contains(
            (#[trigger] rest[j]).dest_path,
        ) by {
            assert(plan[j] == rest[j]);
        }
        a_looked_up_plan_is_right(cx, head, caps, all);
        let full = PlanContext { existing: all, ..cx };
        assert(full.key(files[i]) == cx.key(files[i]));
        if !cx.ledger.has(cx.key(files[i])) {
            let name = rendered(cx.template, files[i].name, caps[i], cx.serial, cx.model);
            assert(plan[plan.len() - 1].dest_path == free_path(
                cx.dest_root,
                name,
                cx.existing,
                plan_paths(rest),
            ));
            untried_paths_do_not_matter(cx.dest_root, name, cx.existing, all, plan_paths(rest));
        }
    }
}

/// The planned files are those that the ledger does not know, in their order.
pub proof fn planned_files_are_new(
    cx: PlanContext,
    files: Seq<CardFile<Seq<char>>>,
    caps: Seq<Captured<Seq<char>>>,
)
    requires
        files.len() <= usize::MAX,
    ensures
        ({
            let plan = cx.planned(files, caps);
            &&& forall|j: int|
                0 <= j < plan.len() ==> {
                    let p = (#[trigger] plan[j]).position as int;
                    &&& 0 <= p < files.len()
                    &&& !cx.ledger.has(cx.key(files[p]))
                    &&& plan[j].src == files[p].src
                    &&& plan[j].name == files[p].name
                    &&& plan[j].size == files[p].size
                    &&& plan[j].mtime_unix == files[p].mtime_unix
                }
            &&& forall|j: int, k: int|
                0 <= j < k < plan.len() ==> (#[trigger] plan[j]).position < (
                #[trigger] plan[k]).position
        }),
    decreases files.len(),
{
    if files.len() > 0 {
        let head = files.drop_last();
        planned_files_are_new(cx, head, caps);
        let rest = cx.planned(head, caps);
        let plan = cx.planned(files, caps);
        let n = files.len() - 1;
        assert forall|j: int| 0 <= j < plan.len() implies {
            let p = (#[trigger] plan[j]).position as int;
            &&& 0 <= p < files.len()
            &&& !cx.ledger.has(cx.key(files[p]))
            &&& plan[j].src == files[p].src
            &&& plan[j].name == files[p].name
            &&& plan[j].size == files[p].size
            &&& plan[j].mtime_unix == files[p].mtime_unix
        } by {
            if j < rest.len() {
                assert(plan[j] == rest[j]);
                assert(head[rest[j].position as int] == files[rest[j].position as int]);
            } else {
                assert(plan[j].position == n);
            }
        }
        assert forall|j: int, k: int| 0 <= j < k < plan.len() implies (#[trigger] plan[j]).position
            < (#[trigger] plan[k]).position by {
            assert(plan[j] == rest[j]);
            if k < rest.len() {
                assert(plan[k] == rest[k]);
            } else {
                assert(rest[j].position < head.len());
            }
        }
    }
}

/// A file that the ledger does not know is planned.
pub proof fn new_files_are_planned(
    cx: PlanContext,
    files: Seq<CardFile<Seq<char>>>,
    caps: Seq<Captured<Seq<char>>>,
    i: int,
)
    requires
        0 <= i < files.len() <= usize::MAX,
        !cx.ledger.has(cx.key(files[i])),
    ensures
        exists|j: int|
            0 <= j < cx.planned(files, caps).len() && (#[trigger] cx.planned(files, caps)[j]).position
                == i,
    decreases files.len(),
{
    let head = files.drop_last();
    let rest = cx.planned(head, caps);
    let plan = cx.planned(files, caps);
    if i < head.len() {
        assert(head[i] == files[i]);
        new_files_are_planned(cx, head, caps, i);
        let j = choose|j: int| 0 <= j < rest.len() && (#[trigger] rest[j]).position == i;
        assert(plan[j] == rest[j]);
    } else {
        assert(plan[plan.len() - 1].position == i);
    }
}

/// Where the ledger knows every file, nothing is planned.
pub proof fn a_known_card_plans_nothing(
    cx: PlanContext,
    files: Seq<CardFile<Seq<char>>>,
    caps: Seq<Captured<Seq<char>>>,
)
    requires
        forall|i: int| 0 <= i < files.len() ==> cx.ledger.has(cx.key(#[trigger] files[i])),
    ensures
        cx.planned(files, caps) == Seq::<PlannedCopy<Seq<char>>>::empty(),
        cx.known(files) == files.len(),
    decreases files.len(),
{
    if files.len() > 0 {
        let head = files.drop_last();
        assert forall|i: int| 0 <= i < head.len() implies cx.ledger.has(
            cx.key(#[trigger] head[i]),
        ) by {
            assert(head[i] == files[i]);
        }
        a_known_card_plans_nothing(cx, head, caps);
        assert(cx.ledger.has(cx.key(files[files.len() - 1])));
    }
}

/// No two planned copies share a destination, and no destination exists.
pub proof fn plan_never_overwrites(
    cx: PlanContext,
    files: Seq<CardFile<Seq<char>>>,
    caps: Seq<Captured<Seq<char>>>,
)
    ensures
        ({
            let plan = cx.planned(files, caps);
            &&& forall|j: int|
                0 <= j < plan.len() ==> !cx.existing.contains((#[trigger] plan[j]).dest_path)
            &&& forall|j: int, k: int|
                0 <= j < k < plan.len() ==> (#[trigger] plan[j]).dest_path != (
                #[trigger] plan[k]).dest_path
        }),
    decreases files.len(),
{
    if files.len() > 0 {
        let head = files.drop_last();
        plan_never_overwrites(cx, head, caps);
        let rest = cx.planned(head, caps);
        let plan = cx.planned(files, caps);
        let i = files.len() - 1;
        let name = rendered(cx.template, files[i].name, caps[i], cx.serial, cx.model);
        free_path_is_first_free(cx.dest_root, name, cx.existing, plan_paths(rest));
        assert forall|j: int, k: int| 0 <= j < k < plan.len() implies (#[trigger] plan[j]).dest_path
            != (#[trigger] plan[k]).dest_path by {
            assert(plan[j] == rest[j]);
            if k < rest.len() {
                assert(plan[k] == rest[k]);
            } else {
                assert(plan_paths(rest)[j] == plan[j].dest_path);
                assert(!taken(plan[k].dest_path, cx.existing, plan_paths(rest)));
            }
        }
    }
}

/// A file that a run has recorded is not planned by the next run.
pub proof fn a_recorded_file_is_not_planned_again(
    cx: PlanContext,
    files: Seq<CardFile<Seq<char>>>,
    caps: Seq<Captured<Seq<char>>>,
    i: int,
    dest_path: Seq<char>,
    hash: Option<Seq<char>>,
)
    requires
        0 <= i < files.len() <= usize::MAX,
    ensures
        ({
            let next = PlanContext {
                ledger: cx.ledger.recorded(cx.key(files[i]), dest_path, hash),
                ..cx
            };
            let plan = next.planned(files, caps);
            forall|j: int| 0 <= j < plan.len() ==> (#[trigger] plan[j]).position != i
        }),
{
    let key = cx.key(files[i]);
    let ledger = cx.ledger.recorded(key, dest_path, hash);
    let next = PlanContext { ledger, ..cx };
    planned_files_are_new(next, files, caps);
    assert(ledger.imports.last().key() == key);
    assert(ledger.imports[ledger.imports.len() - 1].key() == key);
    assert(ledger.has(key));
}

} // verus!
