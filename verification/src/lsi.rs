//! A listing from start to end: choose the entries, find their descriptions,
//! and lay out the lines.

use crate::colors::{resolved, Colors};
use crate::config::{ColorConf, ColorSlot, Config};
use crate::decoration::described;
use crate::errors::LsiError;
use crate::fs::{
    dir_sidecar, file_sidecar, get_pathes, normalized, read_dir_description,
    read_file_description, selected, FoundEntry, SidecarStore,
};
use crate::order::ordered;
use crate::path::{entry_name, joined_path, views, EntryView, LsiPath, LsiPathKind};
use crate::view::{display, listing, texts};
use crate::LsiArgs;
use vstd::prelude::*;

verus! {

/// The file that holds the description of `entry`, which stands in the
/// directory `base`.
pub open spec fn sidecar_of(entry: EntryView, base: Seq<char>) -> Seq<char> {
    match entry.kind {
        LsiPathKind::Dir => dir_sidecar(joined_path(base, entry_name(entry))),
        LsiPathKind::File => file_sidecar(joined_path(base, entry_name(entry))),
    }
}


/// `entry` with the description that `store` holds for it; as it is, where
/// the store holds none.  An entry without a name has no place where a
/// description could be kept.
pub open spec fn with_description(
    entry: EntryView,
    base: Seq<char>,
    store: Map<Seq<char>, Seq<char>>,
) -> EntryView {
    if entry_name(entry).len() > 0 && store.contains_key(sidecar_of(entry, base)) {
        described(entry, normalized(store[sidecar_of(entry, base)]))
    } else {
        entry
    }
}

/// Each of `entries` with the description that `store` holds for it.
pub open spec fn all_with_descriptions(
    entries: Seq<EntryView>,
    base: Seq<char>,
    store: Map<Seq<char>, Seq<char>>,
) -> Seq<EntryView> {
    Seq::new(entries.len(), |i: int| with_description(entries[i], base, store))
}

/// The overrides that a configuration holds.
pub open spec fn overrides_of(config: Option<&Config>) -> Option<&ColorConf> {
    match config {
        Some(c) => match &c.colors {
            Some(overrides) => Some(overrides),
            None => None,
        },
        None => None,
    }
}

/// `colors` is the palette of the configuration `config`.
pub open spec fn palette_of(colors: Colors, config: Option<&Config>) -> bool {
    forall|slot: ColorSlot| #[trigger] colors.of(slot) == resolved(overrides_of(config), slot)
}

/// The lines of the listing of the directory `base`, given by its resolved
/// path, in which `found` was found.  The entries that `args` asks for are
/// chosen, each gets the description that `store` holds for it, and the lines
/// are laid out in the colours of `config`.
pub fn run(
    args: &LsiArgs,
    found: &Vec<FoundEntry>,
    config: Option<&Config>,
    base: &str,
    store: &SidecarStore,
) -> (lines: Vec<String>)
    ensures
        exists|colors: Colors| #[trigger]
            palette_of(colors, config) && texts(lines@) == listing(
                base@,
                all_with_descriptions(
                    ordered(selected(found@, args.is_only, args.show_hidden, args.sort_mode@)),
                    base@,
                    store@,
                ),
                colors,
                args.desc_num,
            ),
{
    let mut paths = get_pathes(found, &args.is_only, &args.show_hidden, args.sort_mode.as_str());
    let colors_config = match config {
        Some(c) => match &c.colors {
            Some(overrides) => Some(overrides),
            None => None,
        },
        None => None,
    };
    let colors = Colors::new(colors_config);
    get_and_set_descriptions(&mut paths, base, store);
    let lines = display(&mut paths, &colors, base, &args.desc_num);
    proof {
        assert(palette_of(colors, config));
    }
    lines
}

/// Gives `path` the description that `store` holds for it.  An entry for
/// which the store holds none is left as it is; that is no error.
pub fn get_and_set_description(path: &mut LsiPath, base: &str, store: &SidecarStore) -> (done:
    Result<(), LsiError>)
    ensures
        done is Ok,
        final(path)@ == with_description(old(path)@, base@, store@),
{
    let description_result = match path.kind() {
        LsiPathKind::Dir => read_dir_description(path, base, store),
        LsiPathKind::File => read_file_description(path, base, store),
    };
    match description_result {
        Ok(content) => {
            path.set_description(content);
            Ok(())
        },
        Err(_) => { Ok(()) },
    }
}

/// Gives each of `paths` the description that `store` holds for it.
pub fn get_and_set_descriptions(paths: &mut Vec<LsiPath>, base: &str, store: &SidecarStore)
    ensures
        views(final(paths)@) == all_with_descriptions(views(old(paths)@), base@, store@),
{
    let mut taken: Vec<LsiPath> = Vec::new();
    std::mem::swap(paths, &mut taken);
    let ghost all = taken@;
    for path in it: taken
        invariant
            it.seq() == all,
            all == old(paths)@,
            paths.len() == it.index(),
            forall|k: int|
                0 <= k < paths.len() ==> (#[trigger] paths@[k])@ == with_description(
                    all[k]@,
                    base@,
                    store@,
                ),
    {
        let mut path = path;
        let _ = get_and_set_description(&mut path, base, store);
        paths.push(path);
    }
    proof {
        assert(views(paths@) =~= all_with_descriptions(views(all), base@, store@));
    }
}

} // verus!
