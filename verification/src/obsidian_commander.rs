//! Configuration data for the command-palette plugin of the note-taking
//! application. The library only models the entries the tool writes; reading
//! and writing the plugin's configuration file is vault I/O and lives with
//! the caller.

use vstd::prelude::*;

use crate::text::str_eq;

verus! {

/// One file-menu entry of the command-palette plugin.
pub struct FileMenu {
    pub id: String,
    pub icon: String,
    pub name: String,
    pub mode: String,
}

/// Drop any file-menu entry bearing the same name and append the new one:
/// the entries that keep their place are exactly those under other names, in
/// their original order, and the new entry comes last.
pub fn add_file_menu(menus: &mut Vec<FileMenu>, file_menu: FileMenu)
    ensures
        final(menus)@ == old(menus)@.filter(|m: FileMenu| m.name@ != file_menu.name@).push(
            file_menu,
        ),
{
    let ghost orig = menus@;
    let n = menus.len();
    let mut kept: Vec<FileMenu> = Vec::new();
    let mut i: usize = 0;
    proof {
        reveal(Seq::filter);
        assert(orig.take(0) =~= Seq::<FileMenu>::empty());
        assert(kept@ =~= orig.take(0).filter(|m: FileMenu| m.name@ != file_menu.name@));
    }
    while i < n
        invariant
            i <= n,
            n == menus@.len(),
            menus@ == orig,
            kept@ == orig.take(i as int).filter(|m: FileMenu| m.name@ != file_menu.name@),
        decreases n - i,
    {
        proof {
            reveal(Seq::filter);
            assert(orig.take(i as int + 1).drop_last() =~= orig.take(i as int));
            assert(orig.take(i as int + 1).last() == orig[i as int]);
        }
        if !str_eq(menus[i].name.as_str(), file_menu.name.as_str()) {
            let m = &menus[i];
            let copy = FileMenu {
                id: m.id.clone(),
                icon: m.icon.clone(),
                name: m.name.clone(),
                mode: m.mode.clone(),
            };
            proof {
                assert(copy == orig[i as int]);
            }
            kept.push(copy);
        }
        i = i + 1;
    }
    proof {
        assert(orig.take(n as int) =~= orig);
    }
    kept.push(file_menu);
    *menus = kept;
}

} // verus!
