//! The tray menu: the quick-connect items and what a click on an item asks.
use vstd::prelude::*;

use crate::model::{display_url_of, ConnConfig};
use crate::text::{chars_of, has_prefix, push_str, starts_with_str, str_eq, string_from};

verus! {

/// The prefix of the id of a quick-connect item.
pub open spec fn connect_prefix() -> Seq<char> {
    "tray-connect:"@
}

/// The id of the quick-connect item of connection `id`.
pub fn connect_item_id(id: &str) -> (r: String)
    ensures
        r@ == connect_prefix() + id@,
{
    let mut r = "tray-connect:".to_owned();
    push_str(&mut r, id);
    r
}

/// The label of the quick-connect item of a connection: its name and its
/// URL with the credentials masked.
pub fn connect_item_label(cfg: &ConnConfig) -> (r: String)
    ensures
        r@ == cfg.name@ + "  ["@ + display_url_of(*cfg) + "]"@,
{
    let mut r = crate::text::copy_string(&cfg.name);
    push_str(&mut r, "  [");
    let u = cfg.display_url();
    push_str(&mut r, u.as_str());
    push_str(&mut r, "]");
    r
}

/// What a click on a tray item asks.
#[derive(Debug)]
pub enum TrayAction {
    /// Show the main window.
    Show,
    /// Show the main window on its settings.
    Settings,
    /// Quit.
    Quit,
    /// Connect the saved connection with this id.
    Connect(String),
    /// Nothing.
    Ignore,
}

/// `s` with every leading copy of `p` removed (as `str::trim_start_matches`
/// with a text pattern).
pub open spec fn strip_all_prefix(s: Seq<char>, p: Seq<char>) -> Seq<char>
    decreases s.len(),
{
    if p.len() > 0 && has_prefix(s, p) {
        strip_all_prefix(s.skip(p.len() as int), p)
    } else {
        s
    }
}

/// What a click on the tray item `id` asks: the three fixed items, a
/// quick-connect item (the connection id is the item id with the prefix
/// taken off, repeatedly), or nothing.
pub fn tray_action(id: &str) -> (r: TrayAction)
    ensures
        id@ == "tray-show"@ ==> r is Show,
        id@ == "tray-settings"@ ==> r is Settings,
        id@ == "tray-quit"@ ==> r is Quit,
        id@ != "tray-show"@ && id@ != "tray-settings"@ && id@ != "tray-quit"@ && has_prefix(
            id@,
            connect_prefix(),
        ) ==> (r matches TrayAction::Connect(c) && c@ == strip_all_prefix(id@, connect_prefix())),
        id@ != "tray-show"@ && id@ != "tray-settings"@ && id@ != "tray-quit"@ && !has_prefix(
            id@,
            connect_prefix(),
        ) ==> r is Ignore,
{
    proof {
        reveal_strlit("tray-show");
        reveal_strlit("tray-settings");
        reveal_strlit("tray-quit");
        assert("tray-show"@[6] != "tray-settings"@[6]);
        assert("tray-show"@[5] != "tray-quit"@[5]);
        assert("tray-settings"@[5] != "tray-quit"@[5]);
    }
    if str_eq(id, "tray-show") {
        return TrayAction::Show;
    }
    if str_eq(id, "tray-settings") {
        return TrayAction::Settings;
    }
    if str_eq(id, "tray-quit") {
        return TrayAction::Quit;
    }
    let v = chars_of(id);
    if !starts_with_str(v.as_slice(), "tray-connect:") {
        return TrayAction::Ignore;
    }
    let pv = chars_of("tray-connect:");
    let n = pv.len();
    let mut start: usize = 0;
    proof {
        reveal_strlit("tray-connect:");
        assert(v@.skip(0) =~= v@);
    }
    while n <= v.len() - start && starts_with_str(
        crate::text::slice_chars(v.as_slice(), start, v.len()).as_slice(),
        "tray-connect:",
    )
        invariant
            pv@ == connect_prefix(),
            n == pv@.len(),
            n > 0,
            start <= v@.len(),
            v@ == id@,
            strip_all_prefix(id@, connect_prefix()) == strip_all_prefix(v@.skip(start as int), connect_prefix()),
        decreases v.len() - start,
    {
        proof {
            assert(v@.subrange(start as int, v@.len() as int) =~= v@.skip(start as int));
            assert(v@.skip(start as int).skip(n as int) =~= v@.skip(start + n));
        }
        start = start + n;
    }
    proof {
        assert(v@.subrange(start as int, v@.len() as int) =~= v@.skip(start as int));
        if n > v.len() - start {
            assert(!has_prefix(v@.skip(start as int), connect_prefix()));
        }
    }
    TrayAction::Connect(string_from(crate::text::slice_chars(v.as_slice(), start, v.len()).as_slice()))
}

/// The index of the saved connection with id `id`, the first if several.
pub fn find_connection(configs: &Vec<ConnConfig>, id: &str) -> (r: Option<usize>)
    ensures
        match r {
            Some(i) => i < configs@.len() && configs@[i as int].id@ == id@ && forall|k: int|
                0 <= k < i ==> (#[trigger] configs@[k]).id@ != id@,
            None => forall|k: int| 0 <= k < configs@.len() ==> (#[trigger] configs@[k]).id@ != id@,
        },
{
    let mut i: usize = 0;
    while i < configs.len()
        invariant
            i <= configs@.len(),
            forall|k: int| 0 <= k < i ==> (#[trigger] configs@[k]).id@ != id@,
        decreases configs.len() - i,
    {
        if str_eq(configs[i].id.as_str(), id) {
            return Some(i);
        }
        i = i + 1;
    }
    None
}

} // verus!
