//! The mapping from X11 cursor names to Windows cursor names, and the
//! aliases under which each X11 cursor is also known.

use crate::text::to_chars;
use vstd::prelude::*;

verus! {

/// The lexicographic order of character sequences by code point. It is
/// the order in which strings compare.
pub open spec fn lex_less(a: Seq<char>, b: Seq<char>) -> bool
    decreases a.len(),
{
    if b.len() == 0 {
        false
    } else if a.len() == 0 {
        true
    } else if a[0] != b[0] {
        a[0] < b[0]
    } else {
        lex_less(a.skip(1), b.skip(1))
    }
}

/// No sequence is less than itself.
pub proof fn lemma_lex_irreflexive(a: Seq<char>)
    ensures
        !lex_less(a, a),
    decreases a.len(),
{
    if a.len() > 0 {
        lemma_lex_irreflexive(a.skip(1));
    }
}

/// The order is transitive.
pub proof fn lemma_lex_transitive(a: Seq<char>, b: Seq<char>, c: Seq<char>)
    requires
        lex_less(a, b),
        lex_less(b, c),
    ensures
        lex_less(a, c),
    decreases a.len(),
{
    if a.len() > 0 && b.len() > 0 && c.len() > 0 {
        if a[0] == b[0] && b[0] == c[0] {
            lemma_lex_transitive(a.skip(1), b.skip(1), c.skip(1));
        }
    }
}

/// Of two different sequences one is less than the other.
pub proof fn lemma_lex_total(a: Seq<char>, b: Seq<char>)
    ensures
        a == b || lex_less(a, b) || lex_less(b, a),
    decreases a.len(),
{
    if a.len() == 0 || b.len() == 0 {
        if a.len() == 0 && b.len() == 0 {
            assert(a =~= b);
        }
    } else if a[0] == b[0] {
        lemma_lex_total(a.skip(1), b.skip(1));
        if a.skip(1) == b.skip(1) {
            assert(a =~= seq![a[0]] + a.skip(1));
            assert(b =~= seq![b[0]] + b.skip(1));
        }
    } else {
    }
}

/// Compares two character sequences.
pub fn chars_less(a: &Vec<char>, b: &Vec<char>) -> (r: bool)
    ensures
        r == lex_less(a@, b@),
{
    let mut i: usize = 0;
    assert(a@.skip(0) =~= a@ && b@.skip(0) =~= b@);
    loop
        invariant
            i <= a@.len(),
            i <= b@.len(),
            lex_less(a@, b@) == lex_less(a@.skip(i as int), b@.skip(i as int)),
        decreases a@.len() - i,
    {
        if i >= b.len() {
            return false;
        }
        if i >= a.len() {
            return true;
        }
        let x = a[i];
        let y = b[i];
        assert(a@.skip(i as int)[0] == x && b@.skip(i as int)[0] == y);
        if x != y {
            return x < y;
        }
        assert(a@.skip(i as int).skip(1) =~= a@.skip(i + 1));
        assert(b@.skip(i as int).skip(1) =~= b@.skip(i + 1));
        i += 1;
    }
}

/// Whether a list of names grows strictly in lexicographic order.
pub open spec fn names_sorted(names: Seq<Seq<char>>) -> bool {
    forall|i: int, j: int| 0 <= i < j < names.len() ==> lex_less(names[i], names[j])
}

/// The names of a sorted list are distinct.
pub proof fn lemma_sorted_names_distinct(names: Seq<Seq<char>>, i: int, j: int)
    requires
        names_sorted(names),
        0 <= i < names.len(),
        0 <= j < names.len(),
        names[i] == names[j],
    ensures
        i == j,
{
    lemma_lex_irreflexive(names[i]);
}

/// Compares two strings by code point.
pub fn str_less(a: &str, b: &str) -> (r: bool)
    ensures
        r == lex_less(a@, b@),
{
    let x = to_chars(a);
    let y = to_chars(b);
    chars_less(&x, &y)
}

/// Tests two strings for equality.
pub fn str_equal(a: &str, b: &str) -> (r: bool)
    ensures
        r == (a@ == b@),
{
    let x = to_chars(a);
    let y = to_chars(b);
    if x.len() != y.len() {
        return false;
    }
    let mut i: usize = 0;
    while i < x.len()
        invariant
            i <= x@.len(),
            x@.len() == y@.len(),
            x@ == a@,
            y@ == b@,
            forall|k: int| 0 <= k < i ==> x@[k] == y@[k],
        decreases x@.len() - i,
    {
        if x[i] != y[i] {
            return false;
        }
        i += 1;
    }
    assert(x@ =~= y@);
    true
}

/// A table from names to values, kept in the order of its names.
#[derive(Debug)]
pub struct NameTable<V: DeepView> {
    entries: Vec<(String, V)>,
}

/// Where a name stands in a table, or where it would have to be put.
pub enum Slot {
    /// The name is the key of the entry at this index.
    Found(usize),
    /// The name is not in the table; its entry belongs at this index.
    Vacant(usize),
}

impl<V: DeepView> NameTable<V> {
    #[verifier::type_invariant]
    spec fn inv(self) -> bool {
        names_sorted(self.names())
    }

    /// The keys of the table, in order.
    pub closed spec fn names(self) -> Seq<Seq<char>> {
        Seq::new(self.entries@.len(), |i: int| self.entries@[i].0@)
    }

    /// The values of the table, in the order of their keys.
    pub closed spec fn values(self) -> Seq<V> {
        Seq::new(self.entries@.len(), |i: int| self.entries@[i].1)
    }

    /// The table is well formed: it has one value per key, and its keys
    /// grow strictly.
    pub open spec fn wf(self) -> bool {
        &&& self.names().len() == self.values().len()
        &&& names_sorted(self.names())
    }

    /// The index of a key of the table.
    pub open spec fn index_of(self, name: Seq<char>) -> int {
        choose|i: int| 0 <= i < self.names().len() && self.names()[i] == name
    }

    /// The table as a map from names to the views of the values.
    pub open spec fn as_map(self) -> Map<Seq<char>, V::V> {
        Map::new(
            |name: Seq<char>| self.names().contains(name),
            |name: Seq<char>| self.values()[self.index_of(name)].deep_view(),
        )
    }

    /// An empty table.
    pub fn new() -> (t: NameTable<V>)
        ensures
            t.wf(),
            t.names() == Seq::<Seq<char>>::empty(),
            t.as_map() == Map::<Seq<char>, V::V>::empty(),
    {
        let t = NameTable { entries: Vec::new() };
        assert(t.names() =~= Seq::<Seq<char>>::empty());
        assert(t.as_map() =~= Map::<Seq<char>, V::V>::empty());
        t
    }

    /// The number of entries.
    pub fn len(&self) -> (n: usize)
        ensures
            n == self.names().len(),
            self.wf(),
    {
        proof {
            use_type_invariant(self);
        }
        self.entries.len()
    }

    /// The key of entry `i`.
    pub fn name(&self, i: usize) -> (name: &String)
        requires
            i < self.names().len(),
        ensures
            name@ == self.names()[i as int],
            self.wf(),
    {
        proof {
            use_type_invariant(self);
        }
        &self.entries[i].0
    }

    /// The value of entry `i`.
    pub fn value(&self, i: usize) -> (value: &V)
        requires
            i < self.names().len(),
        ensures
            *value == self.values()[i as int],
            value.deep_view() == self.as_map()[self.names()[i as int]],
            self.wf(),
    {
        proof {
            use_type_invariant(self);
            lemma_sorted_names_distinct(
                self.names(),
                i as int,
                self.index_of(self.names()[i as int]),
            );
        }
        &self.entries[i].1
    }

    /// Finds the place of a name.
    pub fn slot(&self, name: &str) -> (slot: Slot)
        ensures
            self.wf(),
            match slot {
                Slot::Found(i) => i < self.names().len() && self.names()[i as int] == name@,
                Slot::Vacant(p) => {
                    &&& p <= self.names().len()
                    &&& !self.names().contains(name@)
                    &&& forall|j: int| 0 <= j < p ==> lex_less(self.names()[j], name@)
                    &&& forall|j: int|
                        p <= j < self.names().len() ==> lex_less(name@, self.names()[j])
                },
            },
    {
        proof {
            use_type_invariant(self);
        }
        let mut p: usize = 0;
        while p < self.entries.len()
            invariant
                p <= self.entries@.len(),
                names_sorted(self.names()),
                forall|j: int| 0 <= j < p ==> lex_less(self.names()[j], name@),
            decreases self.entries@.len() - p,
        {
            let key = self.entries[p].0.as_str();
            if str_equal(key, name) {
                return Slot::Found(p);
            }
            if !str_less(key, name) {
                proof {
                    lemma_lex_total(key@, name@);
                    assert forall|j: int| p <= j < self.names().len() implies lex_less(
                        name@,
                        self.names()[j],
                    ) by {
                        if j > p {
                            lemma_lex_transitive(name@, self.names()[p as int], self.names()[j]);
                        }
                    }
                    assert forall|j: int| 0 <= j < self.names().len() implies self.names()[j]
                        != name@ by {
                        lemma_lex_irreflexive(name@);
                    }
                }
                return Slot::Vacant(p);
            }
            p += 1;
        }
        proof {
            assert forall|j: int| 0 <= j < self.names().len() implies self.names()[j] != name@ by {
                lemma_lex_irreflexive(name@);
            }
        }
        Slot::Vacant(p)
    }

    /// Looks a name up.
    pub fn get(&self, name: &str) -> (r: Option<&V>)
        ensures
            self.wf(),
            r is Some <==> self.as_map().contains_key(name@),
            r matches Some(v) ==> v.deep_view() == self.as_map()[name@],
    {
        match self.slot(name) {
            Slot::Found(i) => Some(self.value(i)),
            Slot::Vacant(_) => None,
        }
    }

    /// Sets the value of a name, which replaces the value that the name
    /// had.
    pub fn insert(&mut self, name: String, value: V)
        ensures
            final(self).wf(),
            final(self).as_map() == old(self).as_map().insert(name@, value.deep_view()),
            old(self).names().contains(name@) ==> final(self).names() == old(self).names(),
            !old(self).names().contains(name@) ==> exists|p: int|
                #![trigger old(self).names().insert(p, name@)]
                0 <= p <= old(self).names().len() && final(self).names() == old(
                    self,
                ).names().insert(p, name@),
    {
        let ghost before = *self;
        match self.slot(name.as_str()) {
            Slot::Found(i) => {
                let mut entries: Vec<(String, V)> = Vec::new();
                proof {
                    assert(Seq::new(0, |i: int| entries@[i].0@) =~= Seq::<Seq<char>>::empty());
                }
                core::mem::swap(&mut self.entries, &mut entries);
                entries[i] = (name, value);
                proof {
                    assert(Seq::new(entries@.len(), |i: int| entries@[i].0@) =~= before.names());
                }
                core::mem::swap(&mut self.entries, &mut entries);
                proof {
                    assert(self.names() =~= before.names());
                    assert(self.values() =~= before.values().update(i as int, value));
                    assert forall|k: Seq<char>| self.names().contains(k) implies #[trigger] self
                        .as_map()[k]
                        == before.as_map().insert(name@, value.deep_view())[k] by {
                        let a = self.index_of(k);
                        let b = before.index_of(k);
                        lemma_sorted_names_distinct(self.names(), a, b);
                        if k == name@ {
                            lemma_sorted_names_distinct(self.names(), a, i as int);
                        }
                    }
                    assert(self.as_map() =~= before.as_map().insert(name@, value.deep_view()));
                }
            },
            Slot::Vacant(p) => {
                let mut entries: Vec<(String, V)> = Vec::new();
                proof {
                    assert(Seq::new(0, |i: int| entries@[i].0@) =~= Seq::<Seq<char>>::empty());
                }
                core::mem::swap(&mut self.entries, &mut entries);
                entries.insert(p, (name, value));
                let ghost after = Seq::new(entries@.len(), |i: int| entries@[i].0@);
                proof {
                    assert(after =~= before.names().insert(p as int, name@));
                    assert forall|i: int, j: int| 0 <= i < j < after.len() implies lex_less(
                        after[i],
                        after[j],
                    ) by {
                        if i < p && j > p {
                            assert(after[i] == before.names()[i]);
                            assert(after[j] == before.names()[j - 1]);
                        } else if i < p && j < p {
                            assert(after[i] == before.names()[i]);
                            assert(after[j] == before.names()[j]);
                        } else if i == p {
                            assert(after[j] == before.names()[j - 1]);
                        } else if j == p {
                            assert(after[i] == before.names()[i]);
                        } else {
                            assert(after[i] == before.names()[i - 1]);
                            assert(after[j] == before.names()[j - 1]);
                        }
                    }
                }
                core::mem::swap(&mut self.entries, &mut entries);
                proof {
                    assert(self.names() =~= before.names().insert(p as int, name@));
                    assert(self.values() =~= before.values().insert(p as int, value));
                    assert forall|k: Seq<char>|
                        self.names().contains(k) <==> (before.names().contains(k) || k
                            == name@) by {
                        if self.names().contains(k) {
                            let j = choose|j: int|
                                0 <= j < self.names().len() && self.names()[j] == k;
                            if j < p {
                                assert(before.names()[j] == k);
                            } else if j > p {
                                assert(before.names()[j - 1] == k);
                            }
                        }
                        if before.names().contains(k) {
                            let j = choose|j: int|
                                0 <= j < before.names().len() && before.names()[j] == k;
                            if j < p {
                                assert(self.names()[j] == k);
                            } else {
                                assert(self.names()[j + 1] == k);
                            }
                        }
                        if k == name@ {
                            assert(self.names()[p as int] == k);
                        }
                    }
                    assert forall|k: Seq<char>| self.names().contains(k) implies #[trigger] self
                        .as_map()[k]
                        == before.as_map().insert(name@, value.deep_view())[k] by {
                        let a = self.index_of(k);
                        if k == name@ {
                            lemma_sorted_names_distinct(self.names(), a, p as int);
                        } else {
                            let b = before.index_of(k);
                            if b < p {
                                assert(self.names()[b] == k);
                                lemma_sorted_names_distinct(self.names(), a, b);
                            } else {
                                assert(self.names()[b + 1] == k);
                                lemma_sorted_names_distinct(self.names(), a, b + 1);
                            }
                        }
                    }
                    assert(self.as_map() =~= before.as_map().insert(name@, value.deep_view()));
                }
            },
        }
    }
}

/// The default mapping from X11 names to Windows names, as a map.
pub open spec fn default_x11_to_win_map() -> Map<Seq<char>, Seq<char>> {
    Map::<Seq<char>, Seq<char>>::empty()
        .insert("left_ptr"@, "Normal"@)
        .insert("link"@, "Link Select"@)
        .insert("pointer"@, "Person"@)
        .insert("pencil"@, "Handwriting"@)
        .insert("text"@, "Text"@)
        .insert("not-allowed"@, "Unavailable"@)
        .insert("wait"@, "Busy"@)
        .insert("progress"@, "Working in Background"@)
        .insert("crosshair"@, "Precision"@)
        .insert("move"@, "Move"@)
        .insert("question_arrow"@, "Alternate"@)
        .insert("help"@, "Help"@)
        .insert("pin"@, "Pin"@)
        .insert("size_hor"@, "Horizontal"@)
        .insert("size_ver"@, "Vertical"@)
        .insert("size_bdiag"@, "Diagonal1"@)
        .insert("size_fdiag"@, "Diagonal2"@)
        .insert("copy"@, "Normal"@)
        .insert("cell"@, "Normal"@)
        .insert("grabbing"@, "Normal"@)
        .insert("dotbox"@, "Normal"@)
        .insert("sb_down_arrow"@, "Normal"@)
        .insert("sb_left_arrow"@, "Normal"@)
        .insert("sb_right_arrow"@, "Normal"@)
        .insert("sb_up_arrow"@, "Normal"@)
        .insert("right_ptr"@, "Normal"@)
        .insert("right_side"@, "Normal"@)
        .insert("top_right_corner"@, "Normal"@)
        .insert("top_side"@, "Normal"@)
        .insert("top_left_corner"@, "Normal"@)
        .insert("bottom_right_corner"@, "Normal"@)
        .insert("bottom_side"@, "Normal"@)
        .insert("bottom_left_corner"@, "Normal"@)
        .insert("left_side"@, "Normal"@)
        .insert("X_cursor"@, "Normal"@)
}

/// Whether no list of aliases holds the name that it belongs to.
pub open spec fn excludes_own_names(aliases: Map<Seq<char>, Seq<Seq<char>>>) -> bool {
    forall|name: Seq<char>| #[trigger]
        aliases.contains_key(name) ==> !aliases[name].contains(name)
}

/// The default aliases of the X11 names, as a map.
pub open spec fn default_symlinks_map() -> Map<Seq<char>, Seq<Seq<char>>> {
    Map::<Seq<char>, Seq<Seq<char>>>::empty()
        .insert(
            "left_ptr"@,
            Seq::<Seq<char>>::empty()
                .push("arrow"@)
                .push("default"@)
                .push("top_left_arrow"@)
                .push("wayland-cursor"@),
        )
        .insert(
            "pointer"@,
            Seq::<Seq<char>>::empty()
                .push("hand1"@)
                .push("hand2"@)
                .push("pointing_hand"@)
                .push("openhand"@)
                .push("grab"@)
                .push("9d800788f1b08800ae810202380a0822"@)
                .push("e29285e634086352946a0e7090d73106"@),
        )
        .insert(
            "move"@,
            Seq::<Seq<char>>::empty()
                .push("fleur"@)
                .push("all-scroll"@)
                .push("size_all"@)
                .push("4498f0e0c1937ffe01fd06f973665830"@)
                .push("9081237383d90e509aa00f00170e968f"@),
        )
        .insert(
            "wait"@,
            Seq::<Seq<char>>::empty()
                .push("watch"@),
        )
        .insert(
            "progress"@,
            Seq::<Seq<char>>::empty()
                .push("left_ptr_watch"@)
                .push("00000000000000020006000e7e9ffc3f"@)
                .push("08e8e1c95fe2fc01f976f1e063a24ccd"@)
                .push("3ecb610c1bf2410f44200f48c40d3599"@),
        )
        .insert(
            "crosshair"@,
            Seq::<Seq<char>>::empty()
                .push("cross"@)
                .push("cross_reverse"@)
                .push("diamond_cross"@),
        )
        .insert(
            "text"@,
            Seq::<Seq<char>>::empty()
                .push("xterm"@)
                .push("ibeam"@),
        )
        .insert(
            "pencil"@,
            Seq::<Seq<char>>::empty()
                .push("draft"@),
        )
        .insert(
            "question_arrow"@,
            Seq::<Seq<char>>::empty()
                .push("help"@)
                .push("whats_this"@)
                .push("left_ptr_help"@)
                .push("5c6cd98b3f3ebcb1f9c7f1c204630408"@)
                .push("d9ce0ab605698f320427677b458ad60b"@),
        )
        .insert(
            "not-allowed"@,
            Seq::<Seq<char>>::empty()
                .push("crossed_circle"@)
                .push("forbidden"@)
                .push("no_drop"@)
                .push("dnd_no_drop"@)
                .push("03b6e0fcb3499374a867c041f52298f0"@)
                .push("no-drop"@),
        )
        .insert(
            "size_hor"@,
            Seq::<Seq<char>>::empty()
                .push("sb_h_double_arrow"@)
                .push("h_double_arrow"@)
                .push("ew-resize"@)
                .push("col-resize"@)
                .push("split_h"@)
                .push("size-hor"@)
                .push("028006030e0e7ebffc7f7070c0600140"@)
                .push("14fef782d02440884392942c1120523"@),
        )
        .insert(
            "size_ver"@,
            Seq::<Seq<char>>::empty()
                .push("sb_v_double_arrow"@)
                .push("v_double_arrow"@)
                .push("ns-resize"@)
                .push("row-resize"@)
                .push("split_v"@)
                .push("size-ver"@)
                .push("00008160000006810000408080010102"@)
                .push("2870a09082c103050810ffdffffe0204"@)
                .push("double_arrow"@),
        )
        .insert(
            "size_fdiag"@,
            Seq::<Seq<char>>::empty()
                .push("fd_double_arrow"@)
                .push("nesw-resize"@)
                .push("c7088f0f3e6c8088236ef8e1e3e70000"@),
        )
        .insert(
            "size_bdiag"@,
            Seq::<Seq<char>>::empty()
                .push("bd_double_arrow"@)
                .push("nwse-resize"@)
                .push("fcf1c3c7cd4491d801f1e1c78f100000"@),
        )
        .insert(
            "link"@,
            Seq::<Seq<char>>::empty()
                .push("3085a0e285430894940527032f8b26df"@)
                .push("640fb0e74195791501fd1ed57b41487f"@)
                .push("a2a266d0498c3104214a47bd64ab0fc8"@)
                .push("dnd-link"@)
                .push("alias"@),
        )
        .insert(
            "copy"@,
            Seq::<Seq<char>>::empty()
                .push("1081e37283d90000800003c07f3ef6bf"@)
                .push("6407b0e94181790501fd1e167b474872"@)
                .push("b66166c04f8c3109214a4fbd64a50fc8"@),
        )
        .insert(
            "cell"@,
            Seq::<Seq<char>>::empty()
                .push("plus"@),
        )
        .insert(
            "color-picker"@,
            Seq::<Seq<char>>::empty()
                .push("tcross"@),
        )
        .insert(
            "grabbing"@,
            Seq::<Seq<char>>::empty()
                .push("closedhand"@)
                .push("dnd-move"@)
                .push("dnd-none"@)
                .push("fcf21c00b30f7e3f83fe0dfd12e71cff"@),
        )
        .insert(
            "dotbox"@,
            Seq::<Seq<char>>::empty()
                .push("dot_box_mask"@)
                .push("draped_box"@)
                .push("icon"@)
                .push("target"@),
        )
        .insert(
            "sb_down_arrow"@,
            Seq::<Seq<char>>::empty()
                .push("down-arrow"@),
        )
        .insert(
            "sb_left_arrow"@,
            Seq::<Seq<char>>::empty()
                .push("left-arrow"@),
        )
        .insert(
            "sb_right_arrow"@,
            Seq::<Seq<char>>::empty()
                .push("right-arrow"@),
        )
        .insert(
            "sb_up_arrow"@,
            Seq::<Seq<char>>::empty()
                .push("up-arrow"@),
        )
        .insert(
            "right_ptr"@,
            Seq::<Seq<char>>::empty()
                .push("draft_large"@)
                .push("draft_small"@),
        )
        .insert(
            "right_side"@,
            Seq::<Seq<char>>::empty()
                .push("e-resize"@),
        )
        .insert(
            "top_right_corner"@,
            Seq::<Seq<char>>::empty()
                .push("ne-resize"@),
        )
        .insert(
            "top_side"@,
            Seq::<Seq<char>>::empty()
                .push("n-resize"@),
        )
        .insert(
            "top_left_corner"@,
            Seq::<Seq<char>>::empty()
                .push("nw-resize"@),
        )
        .insert(
            "bottom_right_corner"@,
            Seq::<Seq<char>>::empty()
                .push("se-resize"@),
        )
        .insert(
            "bottom_side"@,
            Seq::<Seq<char>>::empty()
                .push("s-resize"@),
        )
        .insert(
            "bottom_left_corner"@,
            Seq::<Seq<char>>::empty()
                .push("sw-resize"@),
        )
        .insert(
            "left_side"@,
            Seq::<Seq<char>>::empty()
                .push("w-resize"@),
        )
        .insert(
            "X_cursor"@,
            Seq::<Seq<char>>::empty()
                .push("pirate"@)
                .push("x-cursor"@),
        )
}

/// Sets the Windows name of an X11 name in a table.
fn put_name(table: &mut NameTable<String>, x11_name: &str, win_name: &str)
    ensures
        final(table).as_map() == old(table).as_map().insert(x11_name@, win_name@),
{
    table.insert(x11_name.to_owned(), win_name.to_owned());
}

/// Appends a name to a list.
fn push_name(list: &mut Vec<String>, name: &str)
    ensures
        final(list).deep_view() == old(list).deep_view().push(name@),
{
    list.push(name.to_owned());
    assert(list.deep_view() =~= old(list).deep_view().push(name@));
}

/// Appends an alias to the list of a name that differs from it.
fn push_alias(list: &mut Vec<String>, alias: &str, Ghost(owner): Ghost<Seq<char>>)
    requires
        alias@ != owner,
        !old(list).deep_view().contains(owner),
    ensures
        final(list).deep_view() == old(list).deep_view().push(alias@),
        !final(list).deep_view().contains(owner),
{
    push_name(list, alias);
    proof {
        let before = old(list).deep_view();
        let after = list.deep_view();
        assert forall|i: int| 0 <= i < after.len() implies after[i] != owner by {
            if i < before.len() {
                assert(before.contains(before[i]));
            }
        }
    }
}

/// Sets the aliases of an X11 name in a table.
fn put_aliases(table: &mut NameTable<Vec<String>>, x11_name: &str, aliases: Vec<String>)
    requires
        excludes_own_names(old(table).as_map()),
        !aliases.deep_view().contains(x11_name@),
    ensures
        final(table).as_map() == old(table).as_map().insert(x11_name@, aliases.deep_view()),
        excludes_own_names(final(table).as_map()),
{
    table.insert(x11_name.to_owned(), aliases);
}

/// An empty list of names.
fn no_names() -> (list: Vec<String>)
    ensures
        list.deep_view() == Seq::<Seq<char>>::empty(),
{
    let list: Vec<String> = Vec::new();
    assert(list.deep_view() =~= Seq::<Seq<char>>::empty());
    list
}

/// The default mapping: the Windows cursor that stands for each of the
/// standard X11 cursor roles. Roles without a counterpart of their own use
/// the normal pointer.
pub fn default_x11_to_win() -> (table: NameTable<String>)
    ensures
        table.as_map() == default_x11_to_win_map(),
{
    let mut map: NameTable<String> = NameTable::new();
    put_name(&mut map, "left_ptr", "Normal");
    put_name(&mut map, "link", "Link Select");
    put_name(&mut map, "pointer", "Person");
    put_name(&mut map, "pencil", "Handwriting");
    put_name(&mut map, "text", "Text");
    put_name(&mut map, "not-allowed", "Unavailable");
    put_name(&mut map, "wait", "Busy");
    put_name(&mut map, "progress", "Working in Background");
    put_name(&mut map, "crosshair", "Precision");
    put_name(&mut map, "move", "Move");
    put_name(&mut map, "question_arrow", "Alternate");
    put_name(&mut map, "help", "Help");
    put_name(&mut map, "pin", "Pin");
    put_name(&mut map, "size_hor", "Horizontal");
    put_name(&mut map, "size_ver", "Vertical");
    put_name(&mut map, "size_bdiag", "Diagonal1");
    put_name(&mut map, "size_fdiag", "Diagonal2");
    put_name(&mut map, "copy", "Normal");
    put_name(&mut map, "cell", "Normal");
    put_name(&mut map, "grabbing", "Normal");
    put_name(&mut map, "dotbox", "Normal");
    put_name(&mut map, "sb_down_arrow", "Normal");
    put_name(&mut map, "sb_left_arrow", "Normal");
    put_name(&mut map, "sb_right_arrow", "Normal");
    put_name(&mut map, "sb_up_arrow", "Normal");
    put_name(&mut map, "right_ptr", "Normal");
    put_name(&mut map, "right_side", "Normal");
    put_name(&mut map, "top_right_corner", "Normal");
    put_name(&mut map, "top_side", "Normal");
    put_name(&mut map, "top_left_corner", "Normal");
    put_name(&mut map, "bottom_right_corner", "Normal");
    put_name(&mut map, "bottom_side", "Normal");
    put_name(&mut map, "bottom_left_corner", "Normal");
    put_name(&mut map, "left_side", "Normal");
    put_name(&mut map, "X_cursor", "Normal");
    map
}

/// The default aliases: the other names under which each X11 cursor role
/// is looked up.
pub fn default_symlinks() -> (table: NameTable<Vec<String>>)
    ensures
        table.as_map() == default_symlinks_map(),
        excludes_own_names(table.as_map()),
{
    let mut map: NameTable<Vec<String>> = NameTable::new();
    let mut aliases = no_names();
    proof {
        reveal_strlit("left_ptr");
        reveal_strlit("arrow");
        reveal_strlit("default");
        reveal_strlit("top_left_arrow");
        reveal_strlit("wayland-cursor");
        assert("arrow"@.len() != "left_ptr"@.len());
        assert("default"@.len() != "left_ptr"@.len());
        assert("top_left_arrow"@.len() != "left_ptr"@.len());
        assert("wayland-cursor"@.len() != "left_ptr"@.len());
    }
    push_alias(&mut aliases, "arrow", Ghost("left_ptr"@));
    push_alias(&mut aliases, "default", Ghost("left_ptr"@));
    push_alias(&mut aliases, "top_left_arrow", Ghost("left_ptr"@));
    push_alias(&mut aliases, "wayland-cursor", Ghost("left_ptr"@));
    put_aliases(&mut map, "left_ptr", aliases);
    let mut aliases = no_names();
    proof {
        reveal_strlit("pointer");
        reveal_strlit("hand1");
        reveal_strlit("hand2");
        reveal_strlit("pointing_hand");
        reveal_strlit("openhand");
        reveal_strlit("grab");
        reveal_strlit("9d800788f1b08800ae810202380a0822");
        reveal_strlit("e29285e634086352946a0e7090d73106");
        assert("hand1"@.len() != "pointer"@.len());
        assert("hand2"@.len() != "pointer"@.len());
        assert("pointing_hand"@.len() != "pointer"@.len());
        assert("openhand"@.len() != "pointer"@.len());
        assert("grab"@.len() != "pointer"@.len());
        assert("9d800788f1b08800ae810202380a0822"@.len() != "pointer"@.len());
        assert("e29285e634086352946a0e7090d73106"@.len() != "pointer"@.len());
    }
    push_alias(&mut aliases, "hand1", Ghost("pointer"@));
    push_alias(&mut aliases, "hand2", Ghost("pointer"@));
    push_alias(&mut aliases, "pointing_hand", Ghost("pointer"@));
    push_alias(&mut aliases, "openhand", Ghost("pointer"@));
    push_alias(&mut aliases, "grab", Ghost("pointer"@));
    push_alias(&mut aliases, "9d800788f1b08800ae810202380a0822", Ghost("pointer"@));
    push_alias(&mut aliases, "e29285e634086352946a0e7090d73106", Ghost("pointer"@));
    put_aliases(&mut map, "pointer", aliases);
    let mut aliases = no_names();
    proof {
        reveal_strlit("move");
        reveal_strlit("fleur");
        reveal_strlit("all-scroll");
        reveal_strlit("size_all");
        reveal_strlit("4498f0e0c1937ffe01fd06f973665830");
        reveal_strlit("9081237383d90e509aa00f00170e968f");
        assert("fleur"@.len() != "move"@.len());
        assert("all-scroll"@.len() != "move"@.len());
        assert("size_all"@.len() != "move"@.len());
        assert("4498f0e0c1937ffe01fd06f973665830"@.len() != "move"@.len());
        assert("9081237383d90e509aa00f00170e968f"@.len() != "move"@.len());
    }
    push_alias(&mut aliases, "fleur", Ghost("move"@));
    push_alias(&mut aliases, "all-scroll", Ghost("move"@));
    push_alias(&mut aliases, "size_all", Ghost("move"@));
    push_alias(&mut aliases, "4498f0e0c1937ffe01fd06f973665830", Ghost("move"@));
    push_alias(&mut aliases, "9081237383d90e509aa00f00170e968f", Ghost("move"@));
    put_aliases(&mut map, "move", aliases);
    let mut aliases = no_names();
    proof {
        reveal_strlit("wait");
        reveal_strlit("watch");
        assert("watch"@.len() != "wait"@.len());
    }
    push_alias(&mut aliases, "watch", Ghost("wait"@));
    put_aliases(&mut map, "wait", aliases);
    let mut aliases = no_names();
    proof {
        reveal_strlit("progress");
        reveal_strlit("left_ptr_watch");
        reveal_strlit("00000000000000020006000e7e9ffc3f");
        reveal_strlit("08e8e1c95fe2fc01f976f1e063a24ccd");
        reveal_strlit("3ecb610c1bf2410f44200f48c40d3599");
        assert("left_ptr_watch"@.len() != "progress"@.len());
        assert("00000000000000020006000e7e9ffc3f"@.len() != "progress"@.len());
        assert("08e8e1c95fe2fc01f976f1e063a24ccd"@.len() != "progress"@.len());
        assert("3ecb610c1bf2410f44200f48c40d3599"@.len() != "progress"@.len());
    }
    push_alias(&mut aliases, "left_ptr_watch", Ghost("progress"@));
    push_alias(&mut aliases, "00000000000000020006000e7e9ffc3f", Ghost("progress"@));
    push_alias(&mut aliases, "08e8e1c95fe2fc01f976f1e063a24ccd", Ghost("progress"@));
    push_alias(&mut aliases, "3ecb610c1bf2410f44200f48c40d3599", Ghost("progress"@));
    put_aliases(&mut map, "progress", aliases);
    let mut aliases = no_names();
    proof {
        reveal_strlit("crosshair");
        reveal_strlit("cross");
        reveal_strlit("cross_reverse");
        reveal_strlit("diamond_cross");
        assert("cross"@.len() != "crosshair"@.len());
        assert("cross_reverse"@.len() != "crosshair"@.len());
        assert("diamond_cross"@.len() != "crosshair"@.len());
    }
    push_alias(&mut aliases, "cross", Ghost("crosshair"@));
    push_alias(&mut aliases, "cross_reverse", Ghost("crosshair"@));
    push_alias(&mut aliases, "diamond_cross", Ghost("crosshair"@));
    put_aliases(&mut map, "crosshair", aliases);
    let mut aliases = no_names();
    proof {
        reveal_strlit("text");
        reveal_strlit("xterm");
        reveal_strlit("ibeam");
        assert("xterm"@.len() != "text"@.len());
        assert("ibeam"@.len() != "text"@.len());
    }
    push_alias(&mut aliases, "xterm", Ghost("text"@));
    push_alias(&mut aliases, "ibeam", Ghost("text"@));
    put_aliases(&mut map, "text", aliases);
    let mut aliases = no_names();
    proof {
        reveal_strlit("pencil");
        reveal_strlit("draft");
        assert("draft"@.len() != "pencil"@.len());
    }
    push_alias(&mut aliases, "draft", Ghost("pencil"@));
    put_aliases(&mut map, "pencil", aliases);
    let mut aliases = no_names();
    proof {
        reveal_strlit("question_arrow");
        reveal_strlit("help");
        reveal_strlit("whats_this");
        reveal_strlit("left_ptr_help");
        reveal_strlit("5c6cd98b3f3ebcb1f9c7f1c204630408");
        reveal_strlit("d9ce0ab605698f320427677b458ad60b");
        assert("help"@.len() != "question_arrow"@.len());
        assert("whats_this"@.len() != "question_arrow"@.len());
        assert("left_ptr_help"@.len() != "question_arrow"@.len());
        assert("5c6cd98b3f3ebcb1f9c7f1c204630408"@.len() != "question_arrow"@.len());
        assert("d9ce0ab605698f320427677b458ad60b"@.len() != "question_arrow"@.len());
    }
    push_alias(&mut aliases, "help", Ghost("question_arrow"@));
    push_alias(&mut aliases, "whats_this", Ghost("question_arrow"@));
    push_alias(&mut aliases, "left_ptr_help", Ghost("question_arrow"@));
    push_alias(&mut aliases, "5c6cd98b3f3ebcb1f9c7f1c204630408", Ghost("question_arrow"@));
    push_alias(&mut aliases, "d9ce0ab605698f320427677b458ad60b", Ghost("question_arrow"@));
    put_aliases(&mut map, "question_arrow", aliases);
    let mut aliases = no_names();
    proof {
        reveal_strlit("not-allowed");
        reveal_strlit("crossed_circle");
        reveal_strlit("forbidden");
        reveal_strlit("no_drop");
        reveal_strlit("dnd_no_drop");
        reveal_strlit("03b6e0fcb3499374a867c041f52298f0");
        reveal_strlit("no-drop");
        assert("crossed_circle"@.len() != "not-allowed"@.len());
        assert("forbidden"@.len() != "not-allowed"@.len());
        assert("no_drop"@.len() != "not-allowed"@.len());
        assert("dnd_no_drop"@[0] != "not-allowed"@[0]);
        assert("03b6e0fcb3499374a867c041f52298f0"@.len() != "not-allowed"@.len());
        assert("no-drop"@.len() != "not-allowed"@.len());
    }
    push_alias(&mut aliases, "crossed_circle", Ghost("not-allowed"@));
    push_alias(&mut aliases, "forbidden", Ghost("not-allowed"@));
    push_alias(&mut aliases, "no_drop", Ghost("not-allowed"@));
    push_alias(&mut aliases, "dnd_no_drop", Ghost("not-allowed"@));
    push_alias(&mut aliases, "03b6e0fcb3499374a867c041f52298f0", Ghost("not-allowed"@));
    push_alias(&mut aliases, "no-drop", Ghost("not-allowed"@));
    put_aliases(&mut map, "not-allowed", aliases);
    let mut aliases = no_names();
    proof {
        reveal_strlit("size_hor");
        reveal_strlit("sb_h_double_arrow");
        reveal_strlit("h_double_arrow");
        reveal_strlit("ew-resize");
        reveal_strlit("col-resize");
        reveal_strlit("split_h");
        reveal_strlit("size-hor");
        reveal_strlit("028006030e0e7ebffc7f7070c0600140");
        reveal_strlit("14fef782d02440884392942c1120523");
        assert("sb_h_double_arrow"@.len() != "size_hor"@.len());
        assert("h_double_arrow"@.len() != "size_hor"@.len());
        assert("ew-resize"@.len() != "size_hor"@.len());
        assert("col-resize"@.len() != "size_hor"@.len());
        assert("split_h"@.len() != "size_hor"@.len());
        assert("size-hor"@[4] != "size_hor"@[4]);
        assert("028006030e0e7ebffc7f7070c0600140"@.len() != "size_hor"@.len());
        assert("14fef782d02440884392942c1120523"@.len() != "size_hor"@.len());
    }
    push_alias(&mut aliases, "sb_h_double_arrow", Ghost("size_hor"@));
    push_alias(&mut aliases, "h_double_arrow", Ghost("size_hor"@));
    push_alias(&mut aliases, "ew-resize", Ghost("size_hor"@));
    push_alias(&mut aliases, "col-resize", Ghost("size_hor"@));
    push_alias(&mut aliases, "split_h", Ghost("size_hor"@));
    push_alias(&mut aliases, "size-hor", Ghost("size_hor"@));
    push_alias(&mut aliases, "028006030e0e7ebffc7f7070c0600140", Ghost("size_hor"@));
    push_alias(&mut aliases, "14fef782d02440884392942c1120523", Ghost("size_hor"@));
    put_aliases(&mut map, "size_hor", aliases);
    let mut aliases = no_names();
    proof {
        reveal_strlit("size_ver");
        reveal_strlit("sb_v_double_arrow");
        reveal_strlit("v_double_arrow");
        reveal_strlit("ns-resize");
        reveal_strlit("row-resize");
        reveal_strlit("split_v");
        reveal_strlit("size-ver");
        reveal_strlit("00008160000006810000408080010102");
        reveal_strlit("2870a09082c103050810ffdffffe0204");
        reveal_strlit("double_arrow");
        assert("sb_v_double_arrow"@.len() != "size_ver"@.len());
        assert("v_double_arrow"@.len() != "size_ver"@.len());
        assert("ns-resize"@.len() != "size_ver"@.len());
        assert("row-resize"@.len() != "size_ver"@.len());
        assert("split_v"@.len() != "size_ver"@.len());
        assert("size-ver"@[4] != "size_ver"@[4]);
        assert("00008160000006810000408080010102"@.len() != "size_ver"@.len());
        assert("2870a09082c103050810ffdffffe0204"@.len() != "size_ver"@.len());
        assert("double_arrow"@.len() != "size_ver"@.len());
    }
    push_alias(&mut aliases, "sb_v_double_arrow", Ghost("size_ver"@));
    push_alias(&mut aliases, "v_double_arrow", Ghost("size_ver"@));
    push_alias(&mut aliases, "ns-resize", Ghost("size_ver"@));
    push_alias(&mut aliases, "row-resize", Ghost("size_ver"@));
    push_alias(&mut aliases, "split_v", Ghost("size_ver"@));
    push_alias(&mut aliases, "size-ver", Ghost("size_ver"@));
    push_alias(&mut aliases, "00008160000006810000408080010102", Ghost("size_ver"@));
    push_alias(&mut aliases, "2870a09082c103050810ffdffffe0204", Ghost("size_ver"@));
    push_alias(&mut aliases, "double_arrow", Ghost("size_ver"@));
    put_aliases(&mut map, "size_ver", aliases);
    let mut aliases = no_names();
    proof {
        reveal_strlit("size_fdiag");
        reveal_strlit("fd_double_arrow");
        reveal_strlit("nesw-resize");
        reveal_strlit("c7088f0f3e6c8088236ef8e1e3e70000");
        assert("fd_double_arrow"@.len() != "size_fdiag"@.len());
        assert("nesw-resize"@.len() != "size_fdiag"@.len());
        assert("c7088f0f3e6c8088236ef8e1e3e70000"@.len() != "size_fdiag"@.len());
    }
    push_alias(&mut aliases, "fd_double_arrow", Ghost("size_fdiag"@));
    push_alias(&mut aliases, "nesw-resize", Ghost("size_fdiag"@));
    push_alias(&mut aliases, "c7088f0f3e6c8088236ef8e1e3e70000", Ghost("size_fdiag"@));
    put_aliases(&mut map, "size_fdiag", aliases);
    let mut aliases = no_names();
    proof {
        reveal_strlit("size_bdiag");
        reveal_strlit("bd_double_arrow");
        reveal_strlit("nwse-resize");
        reveal_strlit("fcf1c3c7cd4491d801f1e1c78f100000");
        assert("bd_double_arrow"@.len() != "size_bdiag"@.len());
        assert("nwse-resize"@.len() != "size_bdiag"@.len());
        assert("fcf1c3c7cd4491d801f1e1c78f100000"@.len() != "size_bdiag"@.len());
    }
    push_alias(&mut aliases, "bd_double_arrow", Ghost("size_bdiag"@));
    push_alias(&mut aliases, "nwse-resize", Ghost("size_bdiag"@));
    push_alias(&mut aliases, "fcf1c3c7cd4491d801f1e1c78f100000", Ghost("size_bdiag"@));
    put_aliases(&mut map, "size_bdiag", aliases);
    let mut aliases = no_names();
    proof {
        reveal_strlit("link");
        reveal_strlit("3085a0e285430894940527032f8b26df");
        reveal_strlit("640fb0e74195791501fd1ed57b41487f");
        reveal_strlit("a2a266d0498c3104214a47bd64ab0fc8");
        reveal_strlit("dnd-link");
        reveal_strlit("alias");
        assert("3085a0e285430894940527032f8b26df"@.len() != "link"@.len());
        assert("640fb0e74195791501fd1ed57b41487f"@.len() != "link"@.len());
        assert("a2a266d0498c3104214a47bd64ab0fc8"@.len() != "link"@.len());
        assert("dnd-link"@.len() != "link"@.len());
        assert("alias"@.len() != "link"@.len());
    }
    push_alias(&mut aliases, "3085a0e285430894940527032f8b26df", Ghost("link"@));
    push_alias(&mut aliases, "640fb0e74195791501fd1ed57b41487f", Ghost("link"@));
    push_alias(&mut aliases, "a2a266d0498c3104214a47bd64ab0fc8", Ghost("link"@));
    push_alias(&mut aliases, "dnd-link", Ghost("link"@));
    push_alias(&mut aliases, "alias", Ghost("link"@));
    put_aliases(&mut map, "link", aliases);
    let mut aliases = no_names();
    proof {
        reveal_strlit("copy");
        reveal_strlit("1081e37283d90000800003c07f3ef6bf");
        reveal_strlit("6407b0e94181790501fd1e167b474872");
        reveal_strlit("b66166c04f8c3109214a4fbd64a50fc8");
        assert("1081e37283d90000800003c07f3ef6bf"@.len() != "copy"@.len());
        assert("6407b0e94181790501fd1e167b474872"@.len() != "copy"@.len());
        assert("b66166c04f8c3109214a4fbd64a50fc8"@.len() != "copy"@.len());
    }
    push_alias(&mut aliases, "1081e37283d90000800003c07f3ef6bf", Ghost("copy"@));
    push_alias(&mut aliases, "6407b0e94181790501fd1e167b474872", Ghost("copy"@));
    push_alias(&mut aliases, "b66166c04f8c3109214a4fbd64a50fc8", Ghost("copy"@));
    put_aliases(&mut map, "copy", aliases);
    let mut aliases = no_names();
    proof {
        reveal_strlit("cell");
        reveal_strlit("plus");
        assert("plus"@[0] != "cell"@[0]);
    }
    push_alias(&mut aliases, "plus", Ghost("cell"@));
    put_aliases(&mut map, "cell", aliases);
    let mut aliases = no_names();
    proof {
        reveal_strlit("color-picker");
        reveal_strlit("tcross");
        assert("tcross"@.len() != "color-picker"@.len());
    }
    push_alias(&mut aliases, "tcross", Ghost("color-picker"@));
    put_aliases(&mut map, "color-picker", aliases);
    let mut aliases = no_names();
    proof {
        reveal_strlit("grabbing");
        reveal_strlit("closedhand");
        reveal_strlit("dnd-move");
        reveal_strlit("dnd-none");
        reveal_strlit("fcf21c00b30f7e3f83fe0dfd12e71cff");
        assert("closedhand"@.len() != "grabbing"@.len());
        assert("dnd-move"@[0] != "grabbing"@[0]);
        assert("dnd-none"@[0] != "grabbing"@[0]);
        assert("fcf21c00b30f7e3f83fe0dfd12e71cff"@.len() != "grabbing"@.len());
    }
    push_alias(&mut aliases, "closedhand", Ghost("grabbing"@));
    push_alias(&mut aliases, "dnd-move", Ghost("grabbing"@));
    push_alias(&mut aliases, "dnd-none", Ghost("grabbing"@));
    push_alias(&mut aliases, "fcf21c00b30f7e3f83fe0dfd12e71cff", Ghost("grabbing"@));
    put_aliases(&mut map, "grabbing", aliases);
    let mut aliases = no_names();
    proof {
        reveal_strlit("dotbox");
        reveal_strlit("dot_box_mask");
        reveal_strlit("draped_box");
        reveal_strlit("icon");
        reveal_strlit("target");
        assert("dot_box_mask"@.len() != "dotbox"@.len());
        assert("draped_box"@.len() != "dotbox"@.len());
        assert("icon"@.len() != "dotbox"@.len());
        assert("target"@[0] != "dotbox"@[0]);
    }
    push_alias(&mut aliases, "dot_box_mask", Ghost("dotbox"@));
    push_alias(&mut aliases, "draped_box", Ghost("dotbox"@));
    push_alias(&mut aliases, "icon", Ghost("dotbox"@));
    push_alias(&mut aliases, "target", Ghost("dotbox"@));
    put_aliases(&mut map, "dotbox", aliases);
    let mut aliases = no_names();
    proof {
        reveal_strlit("sb_down_arrow");
        reveal_strlit("down-arrow");
        assert("down-arrow"@.len() != "sb_down_arrow"@.len());
    }
    push_alias(&mut aliases, "down-arrow", Ghost("sb_down_arrow"@));
    put_aliases(&mut map, "sb_down_arrow", aliases);
    let mut aliases = no_names();
    proof {
        reveal_strlit("sb_left_arrow");
        reveal_strlit("left-arrow");
        assert("left-arrow"@.len() != "sb_left_arrow"@.len());
    }
    push_alias(&mut aliases, "left-arrow", Ghost("sb_left_arrow"@));
    put_aliases(&mut map, "sb_left_arrow", aliases);
    let mut aliases = no_names();
    proof {
        reveal_strlit("sb_right_arrow");
        reveal_strlit("right-arrow");
        assert("right-arrow"@.len() != "sb_right_arrow"@.len());
    }
    push_alias(&mut aliases, "right-arrow", Ghost("sb_right_arrow"@));
    put_aliases(&mut map, "sb_right_arrow", aliases);
    let mut aliases = no_names();
    proof {
        reveal_strlit("sb_up_arrow");
        reveal_strlit("up-arrow");
        assert("up-arrow"@.len() != "sb_up_arrow"@.len());
    }
    push_alias(&mut aliases, "up-arrow", Ghost("sb_up_arrow"@));
    put_aliases(&mut map, "sb_up_arrow", aliases);
    let mut aliases = no_names();
    proof {
        reveal_strlit("right_ptr");
        reveal_strlit("draft_large");
        reveal_strlit("draft_small");
        assert("draft_large"@.len() != "right_ptr"@.len());
        assert("draft_small"@.len() != "right_ptr"@.len());
    }
    push_alias(&mut aliases, "draft_large", Ghost("right_ptr"@));
    push_alias(&mut aliases, "draft_small", Ghost("right_ptr"@));
    put_aliases(&mut map, "right_ptr", aliases);
    let mut aliases = no_names();
    proof {
        reveal_strlit("right_side");
        reveal_strlit("e-resize");
        assert("e-resize"@.len() != "right_side"@.len());
    }
    push_alias(&mut aliases, "e-resize", Ghost("right_side"@));
    put_aliases(&mut map, "right_side", aliases);
    let mut aliases = no_names();
    proof {
        reveal_strlit("top_right_corner");
        reveal_strlit("ne-resize");
        assert("ne-resize"@.len() != "top_right_corner"@.len());
    }
    push_alias(&mut aliases, "ne-resize", Ghost("top_right_corner"@));
    put_aliases(&mut map, "top_right_corner", aliases);
    let mut aliases = no_names();
    proof {
        reveal_strlit("top_side");
        reveal_strlit("n-resize");
        assert("n-resize"@[0] != "top_side"@[0]);
    }
    push_alias(&mut aliases, "n-resize", Ghost("top_side"@));
    put_aliases(&mut map, "top_side", aliases);
    let mut aliases = no_names();
    proof {
        reveal_strlit("top_left_corner");
        reveal_strlit("nw-resize");
        assert("nw-resize"@.len() != "top_left_corner"@.len());
    }
    push_alias(&mut aliases, "nw-resize", Ghost("top_left_corner"@));
    put_aliases(&mut map, "top_left_corner", aliases);
    let mut aliases = no_names();
    proof {
        reveal_strlit("bottom_right_corner");
        reveal_strlit("se-resize");
        assert("se-resize"@.len() != "bottom_right_corner"@.len());
    }
    push_alias(&mut aliases, "se-resize", Ghost("bottom_right_corner"@));
    put_aliases(&mut map, "bottom_right_corner", aliases);
    let mut aliases = no_names();
    proof {
        reveal_strlit("bottom_side");
        reveal_strlit("s-resize");
        assert("s-resize"@.len() != "bottom_side"@.len());
    }
    push_alias(&mut aliases, "s-resize", Ghost("bottom_side"@));
    put_aliases(&mut map, "bottom_side", aliases);
    let mut aliases = no_names();
    proof {
        reveal_strlit("bottom_left_corner");
        reveal_strlit("sw-resize");
        assert("sw-resize"@.len() != "bottom_left_corner"@.len());
    }
    push_alias(&mut aliases, "sw-resize", Ghost("bottom_left_corner"@));
    put_aliases(&mut map, "bottom_left_corner", aliases);
    let mut aliases = no_names();
    proof {
        reveal_strlit("left_side");
        reveal_strlit("w-resize");
        assert("w-resize"@.len() != "left_side"@.len());
    }
    push_alias(&mut aliases, "w-resize", Ghost("left_side"@));
    put_aliases(&mut map, "left_side", aliases);
    let mut aliases = no_names();
    proof {
        reveal_strlit("X_cursor");
        reveal_strlit("pirate");
        reveal_strlit("x-cursor");
        assert("pirate"@.len() != "X_cursor"@.len());
        assert("x-cursor"@[0] != "X_cursor"@[0]);
    }
    push_alias(&mut aliases, "pirate", Ghost("X_cursor"@));
    push_alias(&mut aliases, "x-cursor", Ghost("X_cursor"@));
    put_aliases(&mut map, "X_cursor", aliases);
    map
}

/// The mathematical content of a [`CursorMapping`].
pub struct MappingView {
    /// The Windows name of each mapped X11 name.
    pub x11_to_win: Map<Seq<char>, Seq<char>>,
    /// The aliases of each X11 name that has any.
    pub symlinks: Map<Seq<char>, Seq<Seq<char>>>,
}

/// The mapping that drives theme assembly: for every X11 cursor name the
/// Windows cursor that stands for it, and the aliases under which it is
/// linked. Both tables are kept in the order of their names.
#[derive(Debug)]
pub struct CursorMapping {
    pub x11_to_win: NameTable<String>,
    pub symlinks: NameTable<Vec<String>>,
}

impl View for CursorMapping {
    type V = MappingView;

    open spec fn view(&self) -> MappingView {
        MappingView { x11_to_win: self.x11_to_win.as_map(), symlinks: self.symlinks.as_map() }
    }
}

impl Default for CursorMapping {
    fn default() -> (r: CursorMapping)
        ensures
            r@.x11_to_win == default_x11_to_win_map(),
            r@.symlinks == default_symlinks_map(),
            r.wf(),
    {
        CursorMapping { x11_to_win: default_x11_to_win(), symlinks: default_symlinks() }
    }
}

impl CursorMapping {
    /// Whether the mapping is well formed: whether no name is among its
    /// own aliases. That a name has one Windows name at most is a matter
    /// of the table.
    pub open spec fn wf(&self) -> bool {
        excludes_own_names(self@.symlinks)
    }

    /// The Windows name that is mapped to an X11 name.
    pub fn get_win_name(&self, x11_name: &str) -> (r: Option<&String>)
        ensures
            r is Some <==> self@.x11_to_win.contains_key(x11_name@),
            r matches Some(name) ==> name@ == self@.x11_to_win[x11_name@],
    {
        self.x11_to_win.get(x11_name)
    }

    /// Maps an X11 name to a Windows name. A name has one mapping at most:
    /// a new one replaces the old one.
    pub fn set_mapping(&mut self, x11_name: String, win_name: String)
        ensures
            final(self)@.x11_to_win == old(self)@.x11_to_win.insert(x11_name@, win_name@),
            final(self)@.symlinks == old(self)@.symlinks,
            old(self).wf() ==> final(self).wf(),
    {
        self.x11_to_win.insert(x11_name, win_name);
    }

    /// The aliases of an X11 name; none where the name has no entry.
    pub fn get_symlinks(&self, x11_name: &str) -> (r: Vec<String>)
        ensures
            self@.symlinks.contains_key(x11_name@) ==> r.deep_view() == self@.symlinks[x11_name@],
            !self@.symlinks.contains_key(x11_name@) ==> r.deep_view() == Seq::<
                Seq<char>,
            >::empty(),
    {
        match self.symlinks.get(x11_name) {
            Some(list) => copy_names(list),
            None => no_names(),
        }
    }
}

/// A copy of a list of names.
pub fn copy_names(list: &Vec<String>) -> (r: Vec<String>)
    ensures
        r.deep_view() == list.deep_view(),
        r@.len() == list@.len(),
        forall|k: int| 0 <= k < list@.len() ==> (#[trigger] r@[k])@ == list@[k]@,
{
    let mut r: Vec<String> = Vec::new();
    let mut i: usize = 0;
    while i < list.len()
        invariant
            i <= list@.len(),
            r@.len() == i,
            forall|k: int| 0 <= k < i ==> r@[k]@ == list@[k]@,
        decreases list@.len() - i,
    {
        r.push(list[i].clone());
        i += 1;
    }
    assert(r.deep_view() =~= list.deep_view());
    r
}

} // verus!
