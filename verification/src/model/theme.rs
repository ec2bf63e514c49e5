//! The descriptor documents of a cursor theme.

use crate::text::push_str;
use vstd::prelude::*;

verus! {

/// The icon-theme index of a theme: `index.theme`.
#[derive(Debug)]
pub struct IndexTheme {
    pub name: String,
    pub comment: String,
    pub inherits: String,
    pub directories: Vec<String>,
}

/// The cursor-theme index of a theme: `cursor.theme`.
#[derive(Debug)]
pub struct CursorTheme {
    pub name: String,
    pub comment: String,
    pub inherits: String,
}

/// The section header and the lines that both documents share: name,
/// comment, and the inherited theme where one is given.
pub open spec fn theme_head(name: Seq<char>, comment: Seq<char>, inherits: Seq<char>) -> Seq<char> {
    "[Icon Theme]\n"@ + "Name="@ + name + "\n"@ + "Comment="@ + comment + "\n"@ + (if inherits.len()
        > 0 {
        "Inherits="@ + inherits + "\n"@
    } else {
        Seq::<char>::empty()
    })
}

/// The first `k` names of a list, separated by commas.
pub open spec fn joined(names: Seq<Seq<char>>, k: int) -> Seq<char>
    decreases k,
{
    if k <= 0 {
        Seq::empty()
    } else if k == 1 {
        names[0]
    } else {
        joined(names, k - 1) + ","@ + names[k - 1]
    }
}

/// The sections of the first `k` directories: each is of context
/// `Cursors` and of fixed type.
pub open spec fn directory_sections(names: Seq<Seq<char>>, k: int) -> Seq<char>
    decreases k,
{
    if k <= 0 {
        Seq::empty()
    } else {
        directory_sections(names, k - 1) + "["@ + names[k - 1] + "]\n"@ + "Context=Cursors\n"@
            + "Type=Fixed\n"@ + "\n"@
    }
}

/// The text of an icon-theme index: the head, the list of directories,
/// and one section per directory.
pub open spec fn index_theme_text(
    name: Seq<char>,
    comment: Seq<char>,
    inherits: Seq<char>,
    directories: Seq<Seq<char>>,
) -> Seq<char> {
    theme_head(name, comment, inherits) + "\n"@ + "# Directory list\n"@ + "Directories="@
        + joined(directories, directories.len() as int) + "\n"@ + "\n"@ + directory_sections(
        directories,
        directories.len() as int,
    )
}

/// The text of a cursor-theme index: the head alone.
pub open spec fn cursor_theme_text(name: Seq<char>, comment: Seq<char>, inherits: Seq<char>) -> Seq<
    char,
> {
    theme_head(name, comment, inherits)
}

/// The texts of a list of strings.
pub open spec fn texts(names: Seq<String>) -> Seq<Seq<char>> {
    Seq::new(names.len(), |i: int| names[i]@)
}

/// Appends the shared head of a theme document.
fn push_head(out: &mut String, name: &str, comment: &str, inherits: &str)
    ensures
        final(out)@ == old(out)@ + theme_head(name@, comment@, inherits@),
{
    push_str(out, "[Icon Theme]\n");
    push_str(out, "Name=");
    push_str(out, name);
    push_str(out, "\n");
    push_str(out, "Comment=");
    push_str(out, comment);
    push_str(out, "\n");
    if inherits.unicode_len() > 0 {
        push_str(out, "Inherits=");
        push_str(out, inherits);
        push_str(out, "\n");
    }
    assert(out@ =~= old(out)@ + theme_head(name@, comment@, inherits@));
}

impl IndexTheme {
    /// The text of the document.
    pub fn to_text(&self) -> (text: String)
        ensures
            text@ == index_theme_text(
                self.name@,
                self.comment@,
                self.inherits@,
                texts(self.directories@),
            ),
    {
        let mut text = String::new();
        push_head(&mut text, self.name.as_str(), self.comment.as_str(), self.inherits.as_str());
        push_str(&mut text, "\n");
        push_str(&mut text, "# Directory list\n");
        push_str(&mut text, "Directories=");
        let ghost head = text@;
        let ghost dirs = texts(self.directories@);
        let mut k: usize = 0;
        while k < self.directories.len()
            invariant
                k <= self.directories@.len(),
                dirs == texts(self.directories@),
                text@ == head + joined(dirs, k as int),
            decreases self.directories@.len() - k,
        {
            if k > 0 {
                push_str(&mut text, ",");
            }
            push_str(&mut text, self.directories[k].as_str());
            k += 1;
            assert(text@ =~= head + joined(dirs, k as int));
        }
        push_str(&mut text, "\n");
        push_str(&mut text, "\n");
        let ghost upper = text@;
        let mut d: usize = 0;
        while d < self.directories.len()
            invariant
                d <= self.directories@.len(),
                dirs == texts(self.directories@),
                text@ == upper + directory_sections(dirs, d as int),
            decreases self.directories@.len() - d,
        {
            push_str(&mut text, "[");
            push_str(&mut text, self.directories[d].as_str());
            push_str(&mut text, "]\n");
            push_str(&mut text, "Context=Cursors\n");
            push_str(&mut text, "Type=Fixed\n");
            push_str(&mut text, "\n");
            d += 1;
            assert(text@ =~= upper + directory_sections(dirs, d as int));
        }
        assert(text@ =~= index_theme_text(self.name@, self.comment@, self.inherits@, dirs));
        text
    }
}

impl CursorTheme {
    /// The text of the document.
    pub fn to_text(&self) -> (text: String)
        ensures
            text@ == cursor_theme_text(self.name@, self.comment@, self.inherits@),
    {
        let mut text = String::new();
        push_head(&mut text, self.name.as_str(), self.comment.as_str(), self.inherits.as_str());
        assert(text@ =~= cursor_theme_text(self.name@, self.comment@, self.inherits@));
        text
    }
}

} // verus!
