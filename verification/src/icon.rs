//! Where the app's shortcuts live, whose icon is pointed back at ours on start.
use crate::text::{concat, ends_with, push_str, str_ends_with};
use vstd::prelude::*;

verus! {

/// A shortcut to rewrite; `label` only names it in the log.
#[derive(Debug, Clone, PartialEq, Eq)]
pub struct Target {
    pub label: &'static str,
    pub lnk: String,
}

/// `Path::join` on Windows for a relative `name`: a `\` between, unless
/// `base` is empty or already ends in a separator.
pub open spec fn join_path(base: Seq<char>, name: Seq<char>) -> Seq<char> {
    if base.len() == 0 {
        name
    } else if ends_with(base, "\\"@) || ends_with(base, "/"@) {
        base + name
    } else {
        base + "\\"@ + name
    }
}

/// `base` joined with the relative `name`, Windows style.
pub fn join_path_str(base: &str, name: &str) -> (r: String)
    ensures
        r@ == join_path(base@, name@),
{
    if base.is_empty() {
        name.to_owned()
    } else if str_ends_with(base, "\\") || str_ends_with(base, "/") {
        concat(base, name)
    } else {
        let mut r = concat(base, "\\");
        push_str(&mut r, name);
        r
    }
}

/// Every place a shortcut of `product` may be: the desktop, the start menu
/// (directly or in the product's folder) and the taskbar pins, under the
/// folders given.
pub open spec fn targets_spec(desktop: Seq<char>, programs: Seq<char>, roaming: Seq<char>, product: Seq<char>) -> Seq<Seq<char>> {
    let lnk = product + ".lnk"@;
    seq![
        join_path(desktop, lnk),
        join_path(programs, lnk),
        join_path(join_path(programs, product), lnk),
        join_path(
            join_path(
                join_path(
                    join_path(join_path(join_path(roaming, "Microsoft"@), "Internet Explorer"@), "Quick Launch"@),
                    "User Pinned"@,
                ),
                "TaskBar"@,
            ),
            lnk,
        ),
    ]
}

/// The four shortcut locations, labelled, from the resolved folders.
pub fn shortcut_targets(desktop: &str, programs: &str, roaming: &str, product: &str) -> (r: Vec<Target>)
    ensures
        r@.len() == 4,
        r@[0].label@ == "desktop"@ && r@[1].label@ == "start-menu"@ && r@[2].label@ == "start-menu-folder"@
            && r@[3].label@ == "pinned-taskbar"@,
        r@.map_values(|t: Target| t.lnk@) == targets_spec(desktop@, programs@, roaming@, product@),
{
    let lnk = concat(product, ".lnk");
    let folder = join_path_str(programs, product);
    let pinned = join_path_str(roaming, "Microsoft");
    let pinned = join_path_str(pinned.as_str(), "Internet Explorer");
    let pinned = join_path_str(pinned.as_str(), "Quick Launch");
    let pinned = join_path_str(pinned.as_str(), "User Pinned");
    let pinned = join_path_str(pinned.as_str(), "TaskBar");
    let mut r: Vec<Target> = Vec::new();
    r.push(Target { label: "desktop", lnk: join_path_str(desktop, lnk.as_str()) });
    r.push(Target { label: "start-menu", lnk: join_path_str(programs, lnk.as_str()) });
    r.push(Target { label: "start-menu-folder", lnk: join_path_str(folder.as_str(), lnk.as_str()) });
    r.push(Target { label: "pinned-taskbar", lnk: join_path_str(pinned.as_str(), lnk.as_str()) });
    assert(r@.map_values(|t: Target| t.lnk@) =~= targets_spec(desktop@, programs@, roaming@, product@));
    r
}

} // verus!
