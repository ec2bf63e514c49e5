//! Assembly of an X11 cursor theme: which converted cursor becomes which
//! theme file, which aliases are linked to it, and what the descriptor
//! documents say.
//!
//! Everything here is planning. The plan is computed from the names of the
//! files that exist; carrying it out is left to the caller.

use crate::model::mapping::{copy_names, str_equal, CursorMapping};
use crate::model::theme::{cursor_theme_text, index_theme_text, texts, CursorTheme, IndexTheme};
use crate::text::push_str;
use vstd::prelude::*;

verus! {

/// The X11 name of the canonical pointer, whose cursor stands in for
/// cursors that are missing.
pub open spec fn pointer_role() -> Seq<char> {
    "left_ptr"@
}

/// The file name that is tried when the pointer itself is missing.
pub open spec fn fallback_file() -> Seq<char> {
    "Normal"@
}

/// Where the file of a theme cursor comes from.
#[derive(Clone, Copy, Debug, PartialEq, Eq, Structural)]
pub enum Resolution {
    /// The cursor that the mapping names exists.
    Mapped,
    /// The mapped cursor is missing; the cursor of the pointer role is
    /// used.
    PointerFallback,
    /// The cursor of the pointer role is missing too; the fallback file is
    /// used.
    HardFallback,
    /// No candidate exists: the theme gets no file for this name.
    Unresolved,
}

/// How one X11 name of the mapping is resolved, given the names of the
/// source files that exist.
pub open spec fn resolution(
    mapping: Map<Seq<char>, Seq<char>>,
    sources: Seq<Seq<char>>,
    x11_name: Seq<char>,
) -> Resolution {
    if sources.contains(mapping[x11_name]) {
        Resolution::Mapped
    } else if !mapping.contains_key(pointer_role()) {
        Resolution::Unresolved
    } else if sources.contains(mapping[pointer_role()]) {
        Resolution::PointerFallback
    } else if sources.contains(fallback_file()) {
        Resolution::HardFallback
    } else {
        Resolution::Unresolved
    }
}

/// The source file that a resolution uses.
pub open spec fn resolved_source(
    mapping: Map<Seq<char>, Seq<char>>,
    x11_name: Seq<char>,
    how: Resolution,
) -> Seq<char> {
    match how {
        Resolution::Mapped => mapping[x11_name],
        Resolution::PointerFallback => mapping[pointer_role()],
        _ => fallback_file(),
    }
}

/// Whether a resolution leads to a copy: a mapped cursor is always
/// copied, a fallback only where the theme has no file of that name yet.
pub open spec fn is_copied(how: Resolution, existing: Seq<Seq<char>>, x11_name: Seq<char>) -> bool {
    match how {
        Resolution::Mapped => true,
        Resolution::PointerFallback | Resolution::HardFallback => !existing.contains(x11_name),
        Resolution::Unresolved => false,
    }
}

/// Whether the pointer role offers no file: then a cursor that is missing
/// cannot fall back on it, which is worth a note.
pub open spec fn fallback_missing(how: Resolution) -> bool {
    how == Resolution::HardFallback || how == Resolution::Unresolved
}

/// One file to copy into the theme.
#[derive(Debug)]
pub struct CopyAction {
    /// The name of the converted cursor in the source directory.
    pub source: String,
    /// The X11 name under which it enters the theme.
    pub dest: String,
    /// Why this source was chosen.
    pub how: Resolution,
}

/// One alias to link.
#[derive(Debug)]
pub struct LinkAction {
    /// The name of the link.
    pub link: String,
    /// The X11 name that it points to, relative to the link.
    pub target: String,
}

/// The mathematical content of a copy.
pub struct CopyView {
    pub source: Seq<char>,
    pub dest: Seq<char>,
    pub how: Resolution,
}

impl View for CopyAction {
    type V = CopyView;

    open spec fn view(&self) -> CopyView {
        CopyView { source: self.source@, dest: self.dest@, how: self.how }
    }
}

impl View for LinkAction {
    type V = (Seq<char>, Seq<char>);

    open spec fn view(&self) -> (Seq<char>, Seq<char>) {
        (self.link@, self.target@)
    }
}

/// The views of a list of copies.
pub open spec fn copy_views(copies: Seq<CopyAction>) -> Seq<CopyView> {
    Seq::new(copies.len(), |i: int| copies[i]@)
}

/// The views of a list of links.
pub open spec fn link_views(links: Seq<LinkAction>) -> Seq<(Seq<char>, Seq<char>)> {
    Seq::new(links.len(), |i: int| links[i]@)
}

/// The views of a list of names.
pub open spec fn name_views(names: Seq<String>) -> Seq<Seq<char>> {
    Seq::new(names.len(), |i: int| names[i]@)
}

/// The copies that the first `k` names of the mapping lead to, in the
/// order of the names.
pub open spec fn planned_copies(
    names: Seq<Seq<char>>,
    mapping: Map<Seq<char>, Seq<char>>,
    sources: Seq<Seq<char>>,
    existing: Seq<Seq<char>>,
    k: int,
) -> Seq<CopyView>
    decreases k,
{
    if k <= 0 {
        Seq::empty()
    } else {
        let name = names[k - 1];
        let how = resolution(mapping, sources, name);
        if is_copied(how, existing, name) {
            planned_copies(names, mapping, sources, existing, k - 1).push(
                CopyView { source: resolved_source(mapping, name, how), dest: name, how },
            )
        } else {
            planned_copies(names, mapping, sources, existing, k - 1)
        }
    }
}

/// Those of the first `k` names of the mapping for which the pointer role
/// offers no file to fall back on.
pub open spec fn planned_notes(
    names: Seq<Seq<char>>,
    mapping: Map<Seq<char>, Seq<char>>,
    sources: Seq<Seq<char>>,
    k: int,
) -> Seq<Seq<char>>
    decreases k,
{
    if k <= 0 {
        Seq::empty()
    } else if fallback_missing(resolution(mapping, sources, names[k - 1])) {
        planned_notes(names, mapping, sources, k - 1).push(names[k - 1])
    } else {
        planned_notes(names, mapping, sources, k - 1)
    }
}

/// The names of the destinations of a list of copies.
pub open spec fn copied_names(copies: Seq<CopyView>) -> Seq<Seq<char>> {
    Seq::new(copies.len(), |i: int| copies[i].dest)
}

/// The links that the first `j` aliases of one X11 name lead to, given the
/// names that exist when the first alias is looked at. An alias whose
/// name exists is passed over; a link that is made exists from then on.
pub open spec fn alias_links(
    target: Seq<char>,
    aliases: Seq<Seq<char>>,
    present: Seq<Seq<char>>,
    j: int,
) -> Seq<(Seq<char>, Seq<char>)>
    decreases j,
{
    if j <= 0 {
        Seq::empty()
    } else {
        let before = alias_links(target, aliases, present, j - 1);
        if present.contains(aliases[j - 1]) || linked_names(before).contains(aliases[j - 1]) {
            before
        } else {
            before.push((aliases[j - 1], target))
        }
    }
}

/// The names of a list of links.
pub open spec fn linked_names(links: Seq<(Seq<char>, Seq<char>)>) -> Seq<Seq<char>> {
    Seq::new(links.len(), |i: int| links[i].0)
}

/// The links that the first `k` entries of the alias table lead to. The
/// aliases of a name are linked only where the theme holds a file of that
/// name.
pub open spec fn planned_links(
    names: Seq<Seq<char>>,
    aliases: Map<Seq<char>, Seq<Seq<char>>>,
    present: Seq<Seq<char>>,
    k: int,
) -> Seq<(Seq<char>, Seq<char>)>
    decreases k,
{
    if k <= 0 {
        Seq::empty()
    } else {
        let before = planned_links(names, aliases, present, k - 1);
        let name = names[k - 1];
        if present.contains(name) || linked_names(before).contains(name) {
            before + alias_links(
                name,
                aliases[name],
                present + linked_names(before),
                aliases[name].len() as int,
            )
        } else {
            before
        }
    }
}

/// Tests whether a list of names holds a name.
pub fn has_name(names: &Vec<String>, name: &str) -> (r: bool)
    ensures
        r == name_views(names@).contains(name@),
{
    let mut i: usize = 0;
    while i < names.len()
        invariant
            i <= names@.len(),
            forall|k: int| 0 <= k < i ==> name_views(names@)[k] != name@,
        decreases names@.len() - i,
    {
        if str_equal(names[i].as_str(), name) {
            assert(name_views(names@)[i as int] == name@);
            return true;
        }
        i += 1;
    }
    false
}

/// Builds the theme of one name.
#[derive(Debug)]
pub struct XCursorThemeBuilder {
    pub output_dir: String,
    pub theme_name: String,
    pub mapping: CursorMapping,
}

/// What has to be done to assemble a theme.
#[derive(Debug)]
pub struct ThemePlan {
    /// The files to copy into the `cursors` directory, in order.
    pub copies: Vec<CopyAction>,
    /// The X11 names whose cursor is missing while the pointer role has
    /// no file to stand in for it.
    pub fallback_missing: Vec<String>,
    /// The links to make in the `cursors` directory, in order.
    pub links: Vec<LinkAction>,
    /// The text of `index.theme`.
    pub index_theme: String,
    /// The text of `cursor.theme`.
    pub cursor_theme: String,
}

impl XCursorThemeBuilder {
    /// A builder for the theme `theme_name` in `output_dir`.
    pub fn new(output_dir: String, theme_name: String, mapping: CursorMapping) -> (r:
        XCursorThemeBuilder)
        ensures
            r.output_dir == output_dir,
            r.theme_name == theme_name,
            r.mapping == mapping,
    {
        XCursorThemeBuilder { output_dir, theme_name, mapping }
    }

    /// Resolves one X11 name of the mapping.
    pub fn resolve(&self, sources: &Vec<String>, x11_name: &str) -> (how: Resolution)
        requires
            self.mapping@.x11_to_win.contains_key(x11_name@),
        ensures
            how == resolution(self.mapping@.x11_to_win, name_views(sources@), x11_name@),
    {
        let win_name = match self.mapping.get_win_name(x11_name) {
            Some(name) => name,
            None => {
                return Resolution::Unresolved;
            },
        };
        if has_name(sources, win_name.as_str()) {
            return Resolution::Mapped;
        }
        match self.mapping.get_win_name("left_ptr") {
            None => Resolution::Unresolved,
            Some(normal) => {
                if has_name(sources, normal.as_str()) {
                    Resolution::PointerFallback
                } else if has_name(sources, "Normal") {
                    Resolution::HardFallback
                } else {
                    Resolution::Unresolved
                }
            },
        }
    }

    /// Plans the copies: for every X11 name of the mapping, in order, the
    /// converted cursor that becomes its theme file. Also lists the names
    /// for which the pointer role has no file to fall back on.
    pub fn plan_copies(&self, sources: &Vec<String>, existing: &Vec<String>) -> (r: (
        Vec<CopyAction>,
        Vec<String>,
    ))
        ensures
            copy_views(r.0@) == planned_copies(
                self.mapping.x11_to_win.names(),
                self.mapping@.x11_to_win,
                name_views(sources@),
                name_views(existing@),
                self.mapping.x11_to_win.names().len() as int,
            ),
            name_views(r.1@) == planned_notes(
                self.mapping.x11_to_win.names(),
                self.mapping@.x11_to_win,
                name_views(sources@),
                self.mapping.x11_to_win.names().len() as int,
            ),
    {
        let table = &self.mapping.x11_to_win;
        let mut copies: Vec<CopyAction> = Vec::new();
        let mut notes: Vec<String> = Vec::new();
        let n = table.len();
        let mut k: usize = 0;
        assert(copy_views(copies@) =~= Seq::empty());
        assert(name_views(notes@) =~= Seq::empty());
        while k < n
            invariant
                k <= n == table.names().len(),
                table == &self.mapping.x11_to_win,
                table.wf(),
                copy_views(copies@) == planned_copies(
                    table.names(),
                    self.mapping@.x11_to_win,
                    name_views(sources@),
                    name_views(existing@),
                    k as int,
                ),
                name_views(notes@) == planned_notes(
                    table.names(),
                    self.mapping@.x11_to_win,
                    name_views(sources@),
                    k as int,
                ),
            decreases n - k,
        {
            let x11_name = table.name(k);
            assert(table.names().contains(table.names()[k as int]));
            let how = self.resolve(sources, x11_name.as_str());
            let copied = match how {
                Resolution::Mapped => true,
                Resolution::PointerFallback | Resolution::HardFallback => !has_name(
                    existing,
                    x11_name.as_str(),
                ),
                Resolution::Unresolved => false,
            };
            if copied {
                let source: String = match how {
                    Resolution::Mapped => table.value(k).clone(),
                    Resolution::PointerFallback => match self.mapping.get_win_name("left_ptr") {
                        Some(name) => name.clone(),
                        None => "Normal".to_owned(),
                    },
                    _ => "Normal".to_owned(),
                };
                let ghost before = copy_views(copies@);
                let action = CopyAction { source, dest: x11_name.clone(), how };
                copies.push(action);
                assert(copy_views(copies@) =~= before.push(action@));
            }
            if how == Resolution::HardFallback || how == Resolution::Unresolved {
                let ghost before = name_views(notes@);
                notes.push(x11_name.clone());
                assert(name_views(notes@) =~= before.push(x11_name@));
            }
            k += 1;
        }
        (copies, notes)
    }

    /// Plans the links: for every entry of the alias table, in order, and
    /// for every alias of the entry, a link from the alias to the X11
    /// name. `present` names the files that the theme holds after the
    /// copies.
    pub fn plan_symlinks(&self, present: &Vec<String>) -> (links: Vec<LinkAction>)
        ensures
            link_views(links@) == planned_links(
                self.mapping.symlinks.names(),
                self.mapping@.symlinks,
                name_views(present@),
                self.mapping.symlinks.names().len() as int,
            ),
            links_sound(name_views(present@), link_views(links@)),
    {
        proof {
            lemma_planned_links_sound(
                self.mapping.symlinks.names(),
                self.mapping@.symlinks,
                name_views(present@),
                self.mapping.symlinks.names().len() as int,
            );
        }
        let table = &self.mapping.symlinks;
        let mut links: Vec<LinkAction> = Vec::new();
        let mut made: Vec<String> = Vec::new();
        let n = table.len();
        let mut k: usize = 0;
        assert(link_views(links@) =~= Seq::empty());
        assert(name_views(made@) =~= linked_names(link_views(links@)));
        while k < n
            invariant
                k <= n == table.names().len(),
                table == &self.mapping.symlinks,
                table.wf(),
                name_views(made@) == linked_names(link_views(links@)),
                link_views(links@) == planned_links(
                    table.names(),
                    self.mapping@.symlinks,
                    name_views(present@),
                    k as int,
                ),
            decreases n - k,
        {
            let target = table.name(k);
            assert(table.names().contains(table.names()[k as int]));
            if has_name(present, target.as_str()) || has_name(&made, target.as_str()) {
                let aliases = table.value(k);
                let ghost done = link_views(links@);
                let ghost known = name_views(present@) + linked_names(done);
                let ghost list = aliases.deep_view();
                let mut j: usize = 0;
                assert(link_views(links@) =~= done + alias_links(target@, list, known, 0));
                while j < aliases.len()
                    invariant
                        j <= aliases@.len(),
                        list == aliases.deep_view(),
                        list.len() == aliases@.len(),
                        known == name_views(present@) + linked_names(done),
                        name_views(made@) == linked_names(link_views(links@)),
                        link_views(links@) == done + alias_links(target@, list, known, j as int),
                    decreases aliases@.len() - j,
                {
                    let alias = &aliases[j];
                    assert(list[j as int] == alias@);
                    let ghost sofar = alias_links(target@, list, known, j as int);
                    proof {
                        lemma_known_names(name_views(present@), done, sofar, alias@);
                    }
                    if !(has_name(present, alias.as_str()) || has_name(&made, alias.as_str())) {
                        let ghost before = link_views(links@);
                        let ghost names_before = name_views(made@);
                        let action = LinkAction { link: alias.clone(), target: target.clone() };
                        links.push(action);
                        made.push(alias.clone());
                        assert(link_views(links@) =~= before.push(action@));
                        assert(name_views(made@) =~= names_before.push(alias@));
                        assert(name_views(made@) =~= linked_names(link_views(links@)));
                        assert(link_views(links@) =~= done + alias_links(
                            target@,
                            list,
                            known,
                            j + 1,
                        ));
                    }
                    j += 1;
                }
            }
            k += 1;
        }
        links
    }

    /// Plans the whole assembly of the theme from the converted cursors.
    ///
    /// `sources` names the converted cursors that exist, `existing` the
    /// files that the `cursors` directory of the theme holds already. The
    /// plan lists the copies, then the links, which see the copied files,
    /// and holds the text of both descriptor documents. The number of
    /// theme cursors is the number of copies.
    pub fn build_from_xcur_files(&self, sources: &Vec<String>, existing: &Vec<String>) -> (plan:
        ThemePlan)
        ensures
            copy_views(plan.copies@) == planned_copies(
                self.mapping.x11_to_win.names(),
                self.mapping@.x11_to_win,
                name_views(sources@),
                name_views(existing@),
                self.mapping.x11_to_win.names().len() as int,
            ),
            name_views(plan.fallback_missing@) == planned_notes(
                self.mapping.x11_to_win.names(),
                self.mapping@.x11_to_win,
                name_views(sources@),
                self.mapping.x11_to_win.names().len() as int,
            ),
            link_views(plan.links@) == planned_links(
                self.mapping.symlinks.names(),
                self.mapping@.symlinks,
                name_views(existing@) + copied_names(copy_views(plan.copies@)),
                self.mapping.symlinks.names().len() as int,
            ),
            plan.index_theme@ == index_theme_text(
                self.theme_name@,
                self.theme_name@ + " cursor theme"@,
                "hicolor"@,
                seq!["cursors"@, "hyprcursors"@],
            ),
            plan.cursor_theme@ == cursor_theme_text(
                self.theme_name@,
                self.theme_name@ + " cursor theme"@,
                self.theme_name@,
            ),
    {
        let (copies, fallback_missing) = self.plan_copies(sources, existing);
        let mut present = copy_names(existing);
        assert(name_views(present@) =~= name_views(existing@));
        let mut k: usize = 0;
        while k < copies.len()
            invariant
                k <= copies@.len(),
                name_views(present@) == name_views(existing@) + copied_names(
                    copy_views(copies@),
                ).take(k as int),
            decreases copies@.len() - k,
        {
            let ghost before = name_views(present@);
            present.push(copies[k].dest.clone());
            assert(name_views(present@) =~= before.push(copies@[k as int].dest@));
            k += 1;
            assert(name_views(present@) =~= name_views(existing@) + copied_names(
                copy_views(copies@),
            ).take(k as int));
        }
        assert(copied_names(copy_views(copies@)).take(copies@.len() as int) =~= copied_names(
            copy_views(copies@),
        ));
        let links = self.plan_symlinks(&present);
        let (index, cursor) = self.theme_files();
        assert(texts(index.directories@) =~= name_views(index.directories@));
        ThemePlan {
            copies,
            fallback_missing,
            links,
            index_theme: index.to_text(),
            cursor_theme: cursor.to_text(),
        }
    }

    /// The two descriptor documents of the theme.
    pub fn theme_files(&self) -> (r: (IndexTheme, CursorTheme))
        ensures
            r.0.name@ == self.theme_name@,
            r.0.comment@ == self.theme_name@ + " cursor theme"@,
            r.0.inherits@ == "hicolor"@,
            name_views(r.0.directories@) == seq!["cursors"@, "hyprcursors"@],
            r.1.name@ == self.theme_name@,
            r.1.comment@ == self.theme_name@ + " cursor theme"@,
            r.1.inherits@ == self.theme_name@,
    {
        let mut comment = self.theme_name.clone();
        push_str(&mut comment, " cursor theme");
        let mut directories: Vec<String> = Vec::new();
        directories.push("cursors".to_owned());
        directories.push("hyprcursors".to_owned());
        assert(name_views(directories@) =~= seq!["cursors"@, "hyprcursors"@]);
        let index = IndexTheme {
            name: self.theme_name.clone(),
            comment: comment.clone(),
            inherits: "hicolor".to_owned(),
            directories,
        };
        let cursor = CursorTheme {
            name: self.theme_name.clone(),
            comment,
            inherits: self.theme_name.clone(),
        };
        (index, cursor)
    }
}

/// A name is known while the aliases of an entry are linked where it was
/// present before, linked by an earlier entry, or linked by an earlier
/// alias of the entry.
pub proof fn lemma_known_names(
    present: Seq<Seq<char>>,
    done: Seq<(Seq<char>, Seq<char>)>,
    sofar: Seq<(Seq<char>, Seq<char>)>,
    name: Seq<char>,
)
    ensures
        ((present + linked_names(done)).contains(name) || linked_names(sofar).contains(name)) <==> (
        present.contains(name) || linked_names(done + sofar).contains(name)),
{
    let all = linked_names(done + sofar);
    let known = present + linked_names(done);
    if known.contains(name) {
        let i = choose|i: int| 0 <= i < known.len() && known[i] == name;
        if i >= present.len() {
            assert(all[i - present.len()] == name);
        } else {
            assert(present[i] == name);
        }
    }
    if linked_names(sofar).contains(name) {
        let i = choose|i: int| 0 <= i < sofar.len() && linked_names(sofar)[i] == name;
        assert(all[done.len() + i] == name);
    }
    if present.contains(name) {
        let i = choose|i: int| 0 <= i < present.len() && present[i] == name;
        assert(known[i] == name);
    }
    if all.contains(name) {
        let i = choose|i: int| 0 <= i < all.len() && all[i] == name;
        if i < done.len() {
            assert(known[present.len() + i] == name);
        } else {
            assert(linked_names(sofar)[i - done.len()] == name);
        }
    }
}

/// The fallback rule: a name whose mapped cursor is missing falls back on
/// the cursor that is mapped to the pointer role, wherever that exists;
/// and a fallback is reported as missing only where that cursor, too, is
/// absent.
pub proof fn lemma_fallback_mapping(
    mapping: Map<Seq<char>, Seq<char>>,
    sources: Seq<Seq<char>>,
    x11_name: Seq<char>,
)
    requires
        !sources.contains(mapping[x11_name]),
    ensures
        mapping.contains_key(pointer_role()) && sources.contains(mapping[pointer_role()]) ==> {
            &&& resolution(mapping, sources, x11_name) == Resolution::PointerFallback
            &&& resolved_source(mapping, x11_name, resolution(mapping, sources, x11_name))
                == mapping[pointer_role()]
        },
        fallback_missing(resolution(mapping, sources, x11_name)) <==> !(mapping.contains_key(
            pointer_role(),
        ) && sources.contains(mapping[pointer_role()])),
{
}

/// A name is noted as lacking a fallback exactly when it is a name of the
/// mapping whose resolution finds no cursor of the pointer role.
pub proof fn lemma_notes_are_missing(
    names: Seq<Seq<char>>,
    mapping: Map<Seq<char>, Seq<char>>,
    sources: Seq<Seq<char>>,
    k: int,
    x11_name: Seq<char>,
)
    requires
        0 <= k <= names.len(),
    ensures
        planned_notes(names, mapping, sources, k).contains(x11_name) <==> exists|i: int|
            0 <= i < k && names[i] == x11_name && fallback_missing(
                resolution(mapping, sources, #[trigger] names[i]),
            ),
    decreases k,
{
    if k > 0 {
        lemma_notes_are_missing(names, mapping, sources, k - 1, x11_name);
        let before = planned_notes(names, mapping, sources, k - 1);
        let now = planned_notes(names, mapping, sources, k);
        if fallback_missing(resolution(mapping, sources, names[k - 1])) {
            assert(now == before.push(names[k - 1]));
            if now.contains(x11_name) {
                let j = choose|j: int| 0 <= j < now.len() && now[j] == x11_name;
                if j < before.len() {
                    assert(before[j] == x11_name);
                }
            }
            if before.contains(x11_name) {
                let j = choose|j: int| 0 <= j < before.len() && before[j] == x11_name;
                assert(now[j] == x11_name);
            }
            if names[k - 1] == x11_name {
                assert(now[before.len() as int] == x11_name);
            }
        }
    }
}

/// Every planned copy copies a source that exists.
pub proof fn lemma_planned_sources(
    names: Seq<Seq<char>>,
    mapping: Map<Seq<char>, Seq<char>>,
    sources: Seq<Seq<char>>,
    existing: Seq<Seq<char>>,
    k: int,
)
    requires
        0 <= k <= names.len(),
    ensures
        forall|i: int|
            0 <= i < planned_copies(names, mapping, sources, existing, k).len()
                ==> sources.contains(
                (#[trigger] planned_copies(names, mapping, sources, existing, k)[i]).source,
            ),
    decreases k,
{
    if k > 0 {
        lemma_planned_sources(names, mapping, sources, existing, k - 1);
    }
}

/// Whether a list of links can be made one after the other, given the
/// names that exist before: no link has a name that exists or that an
/// earlier link has, and every link points to a name that exists or that
/// an earlier link has. In particular no link points to itself.
pub open spec fn links_sound(present: Seq<Seq<char>>, links: Seq<(Seq<char>, Seq<char>)>) -> bool {
    forall|i: int|
        0 <= i < links.len() ==> {
            &&& !present.contains((#[trigger] links[i]).0)
            &&& !linked_names(links.take(i)).contains(links[i].0)
            &&& (present.contains(links[i].1) || linked_names(links.take(i)).contains(links[i].1))
            &&& links[i].0 != links[i].1
        }
}

/// The links of the aliases of one name can be made behind links that can
/// be made, where the name exists by then.
proof fn lemma_alias_links_sound(
    present: Seq<Seq<char>>,
    done: Seq<(Seq<char>, Seq<char>)>,
    target: Seq<char>,
    aliases: Seq<Seq<char>>,
    j: int,
)
    requires
        links_sound(present, done),
        present.contains(target) || linked_names(done).contains(target),
        0 <= j <= aliases.len(),
    ensures
        links_sound(
            present,
            done + alias_links(target, aliases, present + linked_names(done), j),
        ),
    decreases j,
{
    let known = present + linked_names(done);
    if j <= 0 {
        assert(done + alias_links(target, aliases, known, j) =~= done);
    } else {
        lemma_alias_links_sound(present, done, target, aliases, j - 1);
        let before = alias_links(target, aliases, known, j - 1);
        let alias = aliases[j - 1];
        if !(known.contains(alias) || linked_names(before).contains(alias)) {
            let all = done + before.push((alias, target));
            assert(all =~= (done + before).push((alias, target)));
            lemma_known_names(present, done, before, alias);
            lemma_known_names(present, done, before, target);
            assert forall|i: int| 0 <= i < all.len() implies {
                &&& !present.contains((#[trigger] all[i]).0)
                &&& !linked_names(all.take(i)).contains(all[i].0)
                &&& (present.contains(all[i].1) || linked_names(all.take(i)).contains(all[i].1))
                &&& all[i].0 != all[i].1
            } by {
                if i < all.len() - 1 {
                    assert(all[i] == (done + before)[i]);
                    assert(all.take(i) =~= (done + before).take(i));
                } else {
                    assert(all.take(i) =~= done + before);
                    assert(known.contains(target)) by {
                        if present.contains(target) {
                            let w = choose|w: int| 0 <= w < present.len() && present[w] == target;
                            assert(known[w] == target);
                        } else {
                            let w = choose|w: int|
                                0 <= w < done.len() && linked_names(done)[w] == target;
                            assert(known[present.len() + w] == target);
                        }
                    }
                    assert(present.contains(target) || linked_names(done + before).contains(
                        target,
                    ));
                }
            }
        }
    }
}

/// The planned links can be made in their order: no link replaces a name
/// that exists, no link is made twice, every link points to a name that
/// exists when it is made, and no link points to itself.
pub proof fn lemma_planned_links_sound(
    names: Seq<Seq<char>>,
    aliases: Map<Seq<char>, Seq<Seq<char>>>,
    present: Seq<Seq<char>>,
    k: int,
)
    requires
        0 <= k <= names.len(),
    ensures
        links_sound(present, planned_links(names, aliases, present, k)),
    decreases k,
{
    if k > 0 {
        lemma_planned_links_sound(names, aliases, present, k - 1);
        let before = planned_links(names, aliases, present, k - 1);
        let name = names[k - 1];
        if present.contains(name) || linked_names(before).contains(name) {
            lemma_alias_links_sound(
                present,
                before,
                name,
                aliases[name],
                aliases[name].len() as int,
            );
        }
    }
}

} // verus!
