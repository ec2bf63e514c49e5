//! Reading back a written sidecar document gives the entries that were
//! written.

use crate::pipeline::hyprcursor::{
    number_or_zero, xconfig_after, xconfig_entry, xconfig_of, XConfigView,
};
use crate::pipeline::xcur2png::png_writer::{
    config_document, config_header, config_line, config_lines, PngWriteConfig,
};
use crate::text::{
    all_digits, decimal, digit_char, digit_value, digits_value, first_index, is_space, leading,
    lines, lines_from, split, split_from, trailing, trimmed,
};
use vstd::prelude::*;

verus! {

/// Whether a character occurs nowhere in a text.
pub open spec fn free_of(s: Seq<char>, c: char) -> bool {
    forall|i: int| 0 <= i < s.len() ==> s[i] != c
}

/// Whether a text is made of decimal digits, and of at least one.
pub open spec fn is_numeral(s: Seq<char>) -> bool {
    s.len() > 0 && all_digits(s)
}

/// The decimal notation of a number is a numeral that spells it.
pub proof fn lemma_decimal_spells(n: nat)
    ensures
        is_numeral(decimal(n)),
        digits_value(decimal(n)) == n,
    decreases n,
{
    if n < 10 {
        let s = decimal(n);
        assert(s.drop_last().len() == 0);
        assert(digits_value(s.drop_last()) == 0);
        assert(digit_value(digit_char(n as int)) == Some(n as int));
    } else {
        lemma_decimal_spells(n / 10);
        let head = decimal(n / 10);
        let s = decimal(n);
        assert(s.drop_last() =~= head);
        assert(digit_value(digit_char((n % 10) as int)) == Some((n % 10) as int));
        assert forall|i: int| 0 <= i < s.len() implies digit_value(#[trigger] s[i]) is Some by {
            if i < head.len() {
                assert(s[i] == head[i]);
            }
        }
    }
}

/// A numeral holds no tab, no line feed and no white space, and does not
/// open a comment.
pub proof fn lemma_numeral_is_plain(s: Seq<char>)
    requires
        is_numeral(s),
    ensures
        free_of(s, '\t'),
        free_of(s, '\n'),
        !is_space(s[0]),
        !is_space(s.last()),
        s[0] != '#',
        s[0] != '+',
{
    assert forall|i: int| 0 <= i < s.len() implies s[i] != '\t' && s[i] != '\n' by {
        assert(digit_value(s[i]) is Some);
    }
    assert(digit_value(s[0]) is Some);
    assert(digit_value(s[s.len() - 1]) is Some);
}

/// A field that holds the decimal notation of a 32-bit number reads as
/// that number.
pub proof fn lemma_number_field(n: u32)
    ensures
        number_or_zero(decimal(n as nat)) == n,
{
    lemma_decimal_spells(n as nat);
    lemma_numeral_is_plain(decimal(n as nat));
}

/// Scanning for a character stops at its first occurrence.
pub proof fn lemma_first_index_at(s: Seq<char>, c: char, from: int, at: int)
    requires
        0 <= from <= at <= s.len(),
        forall|i: int| from <= i < at ==> s[i] != c,
        at < s.len() ==> s[at] == c,
    ensures
        first_index(s, c, from) == at,
    decreases at - from,
{
    if from < at {
        lemma_first_index_at(s, c, from + 1, at);
    }
}

/// A text that neither starts nor ends with white space is its own
/// trimmed form.
pub proof fn lemma_trimmed_plain(s: Seq<char>)
    requires
        s.len() > 0,
        !is_space(s[0]),
        !is_space(s.last()),
    ensures
        trimmed(s) == s,
{
    assert(leading(s, 0) == 0);
    assert(trailing(s, s.len() as int, 0) == s.len());
    assert(s.subrange(0, s.len() as int) =~= s);
}

/// Five fields joined by tabs.
pub open spec fn tabbed(
    a: Seq<char>,
    b: Seq<char>,
    c: Seq<char>,
    d: Seq<char>,
    e: Seq<char>,
) -> Seq<char> {
    a + seq!['\t'] + b + seq!['\t'] + c + seq!['\t'] + d + seq!['\t'] + e
}

/// Splitting five tab-free fields that tabs join gives the fields back.
pub proof fn lemma_split_tabbed(
    a: Seq<char>,
    b: Seq<char>,
    c: Seq<char>,
    d: Seq<char>,
    e: Seq<char>,
)
    requires
        free_of(a, '\t'),
        free_of(b, '\t'),
        free_of(c, '\t'),
        free_of(d, '\t'),
        free_of(e, '\t'),
    ensures
        split(tabbed(a, b, c, d, e), '\t') == seq![a, b, c, d, e],
{
    let s = tabbed(a, b, c, d, e);
    let first_tab = a.len() as int;
    let second_tab = first_tab + 1 + b.len();
    let third_tab = second_tab + 1 + c.len();
    let fourth_tab = third_tab + 1 + d.len();
    let end = fourth_tab + 1 + e.len();
    assert(s.len() == end);
    assert(forall|i: int| 0 <= i < first_tab ==> s[i] == a[i]);
    assert(s[first_tab] == '\t');
    assert(forall|i: int| first_tab + 1 <= i < second_tab ==> s[i] == b[i - first_tab - 1]);
    assert(s[second_tab] == '\t');
    assert(forall|i: int| second_tab + 1 <= i < third_tab ==> s[i] == c[i - second_tab - 1]);
    assert(s[third_tab] == '\t');
    assert(forall|i: int| third_tab + 1 <= i < fourth_tab ==> s[i] == d[i - third_tab - 1]);
    assert(s[fourth_tab] == '\t');
    assert(forall|i: int| fourth_tab + 1 <= i < end ==> s[i] == e[i - fourth_tab - 1]);
    lemma_first_index_at(s, '\t', 0, first_tab);
    lemma_first_index_at(s, '\t', first_tab + 1, second_tab);
    lemma_first_index_at(s, '\t', second_tab + 1, third_tab);
    lemma_first_index_at(s, '\t', third_tab + 1, fourth_tab);
    lemma_first_index_at(s, '\t', fourth_tab + 1, end);
    assert(s.subrange(0, first_tab) =~= a);
    assert(s.subrange(first_tab + 1, second_tab) =~= b);
    assert(s.subrange(second_tab + 1, third_tab) =~= c);
    assert(s.subrange(third_tab + 1, fourth_tab) =~= d);
    assert(s.subrange(fourth_tab + 1, end) =~= e);
    assert(split_from(s, '\t', fourth_tab + 1) == seq![e]);
    assert(split_from(s, '\t', third_tab + 1) == seq![d] + split_from(s, '\t', fourth_tab + 1));
    assert(split_from(s, '\t', second_tab + 1) == seq![c] + split_from(s, '\t', third_tab + 1));
    assert(split_from(s, '\t', first_tab + 1) == seq![b] + split_from(s, '\t', second_tab + 1));
    assert(split_from(s, '\t', 0) == seq![a] + split_from(s, '\t', first_tab + 1));
    assert(split(s, '\t') =~= seq![a, b, c, d, e]);
}

/// The entry that a written line stands for.
pub open spec fn entry_of(config: PngWriteConfig) -> XConfigView {
    XConfigView {
        size: config.size,
        hotspot_x: config.xhot,
        hotspot_y: config.yhot,
        image: config.filename@,
        delay: config.delay,
    }
}

/// The entries that a list of written lines stands for.
pub open spec fn entries_of(configs: Seq<PngWriteConfig>) -> Seq<XConfigView> {
    Seq::new(configs.len(), |i: int| entry_of(configs[i]))
}

/// Whether a file name can stand in a line of a sidecar document: whether
/// it holds neither a tab nor a line feed.
pub open spec fn is_plain_name(name: Seq<char>) -> bool {
    free_of(name, '\t') && free_of(name, '\n')
}

/// A written line holds no line feed, and reads back as its entry.
pub proof fn lemma_line_reads_back(config: PngWriteConfig)
    requires
        is_plain_name(config.filename@),
    ensures
        free_of(config_line(config), '\n'),
        xconfig_entry(config_line(config)) == Some(entry_of(config)),
{
    let a = decimal(config.size as nat);
    let b = decimal(config.xhot as nat);
    let c = decimal(config.yhot as nat);
    let d = config.filename@;
    let e = decimal(config.delay as nat);
    let line = config_line(config);
    lemma_decimal_spells(config.size as nat);
    lemma_decimal_spells(config.xhot as nat);
    lemma_decimal_spells(config.yhot as nat);
    lemma_decimal_spells(config.delay as nat);
    lemma_numeral_is_plain(a);
    lemma_numeral_is_plain(b);
    lemma_numeral_is_plain(c);
    lemma_numeral_is_plain(e);
    lemma_number_field(config.size);
    lemma_number_field(config.xhot);
    lemma_number_field(config.yhot);
    lemma_number_field(config.delay);
    assert(line == tabbed(a, b, c, d, e));
    let first_tab = a.len() as int;
    let second_tab = first_tab + 1 + b.len();
    let third_tab = second_tab + 1 + c.len();
    let fourth_tab = third_tab + 1 + d.len();
    assert(line.len() == fourth_tab + 1 + e.len());
    assert(line[0] == a[0]);
    assert(line.last() == e.last());
    assert forall|i: int| 0 <= i < line.len() implies line[i] != '\n' by {
        if i < first_tab {
            assert(line[i] == a[i]);
        } else if i == first_tab {
        } else if i < second_tab {
            assert(line[i] == b[i - first_tab - 1]);
        } else if i == second_tab {
        } else if i < third_tab {
            assert(line[i] == c[i - second_tab - 1]);
        } else if i == third_tab {
        } else if i < fourth_tab {
            assert(line[i] == d[i - third_tab - 1]);
        } else if i == fourth_tab {
        } else {
            assert(line[i] == e[i - fourth_tab - 1]);
        }
    }
    lemma_trimmed_plain(line);
    lemma_split_tabbed(a, b, c, d, e);
    let parts = split(trimmed(line), '\t');
    assert(parts == seq![a, b, c, d, e]);
    assert(parts.len() == 5);
    assert(parts[0] == a && parts[1] == b && parts[2] == c && parts[3] == d && parts[4] == e);
}

/// Whether a text is empty or ends with a line feed.
pub open spec fn is_closed(s: Seq<char>) -> bool {
    s.len() == 0 || s.last() == '\n'
}

/// In a text that a line feed ends, every scan for a line feed finds one.
pub proof fn lemma_closed_has_line_feed(s: Seq<char>, from: int)
    requires
        0 <= from < s.len(),
        s.last() == '\n',
    ensures
        from <= first_index(s, '\n', from) < s.len(),
    decreases s.len() - from,
{
    if s[from] != '\n' {
        lemma_closed_has_line_feed(s, from + 1);
    }
}

/// Scanning a text sees nothing of what stands behind the character it
/// finds.
pub proof fn lemma_first_index_prefix(s: Seq<char>, t: Seq<char>, c: char, from: int)
    requires
        0 <= from <= s.len(),
        first_index(s, c, from) < s.len(),
    ensures
        first_index(s + t, c, from) == first_index(s, c, from),
    decreases s.len() - from,
{
    if from < s.len() {
        assert((s + t)[from] == s[from]);
        if s[from] != c {
            lemma_first_index_prefix(s, t, c, from + 1);
        }
    }
}

/// A line written behind a closed text is one more line, behind the lines
/// from `from` on.
pub proof fn lemma_lines_from_closed(s: Seq<char>, line: Seq<char>, from: int)
    requires
        is_closed(s),
        free_of(line, '\n'),
        0 <= from <= s.len(),
    ensures
        lines_from(s + line + seq!['\n'], from) == lines_from(s, from).push(line),
    decreases s.len() - from,
{
    let tail = line + seq!['\n'];
    let whole = s + line + seq!['\n'];
    assert(whole =~= s + tail);
    let stop = (s.len() + line.len()) as int;
    if from == s.len() {
        assert forall|i: int| from <= i < stop implies whole[i] != '\n' by {
            assert(whole[i] == line[i - s.len()]);
        }
        assert(whole[stop] == '\n');
        lemma_first_index_at(whole, '\n', from, stop);
        assert(whole.subrange(from, stop) =~= line);
        assert(lines_from(whole, stop + 1) =~= Seq::<Seq<char>>::empty());
        assert(lines_from(s, from) =~= Seq::<Seq<char>>::empty());
        assert(lines_from(whole, from) =~= Seq::<Seq<char>>::empty().push(line));
    } else {
        lemma_closed_has_line_feed(s, from);
        let at = first_index(s, '\n', from);
        lemma_first_index_prefix(s, tail, '\n', from);
        assert(first_index(whole, '\n', from) == at);
        lemma_lines_from_closed(s, line, at + 1);
        assert(whole.subrange(from, at) =~= s.subrange(from, at));
        assert(lines_from(whole, from) == seq![s.subrange(from, at)] + lines_from(
            whole,
            at + 1,
        ));
        assert(lines_from(s, from) == seq![s.subrange(from, at)] + lines_from(s, at + 1));
        assert(lines_from(whole, from) =~= lines_from(s, from).push(line));
    }
}

/// A line written behind a closed text is one more line.
pub proof fn lemma_lines_push(s: Seq<char>, line: Seq<char>)
    requires
        is_closed(s),
        free_of(line, '\n'),
    ensures
        lines(s + line + seq!['\n']) == lines(s).push(line),
{
    lemma_lines_from_closed(s, line, 0);
}

/// The entries of the first lines of a document do not depend on the
/// lines behind them.
pub proof fn lemma_entries_of_prefix(all: Seq<Seq<char>>, more: Seq<char>, k: int)
    requires
        0 <= k <= all.len(),
    ensures
        xconfig_after(all.push(more), k) == xconfig_after(all, k),
    decreases k,
{
    if k > 0 {
        lemma_entries_of_prefix(all, more, k - 1);
        assert(all.push(more)[k - 1] == all[k - 1]);
    }
}

/// A document of `k` written lines behind the header.
pub open spec fn document_prefix(configs: Seq<PngWriteConfig>, k: int) -> Seq<char> {
    config_header() + seq!['\n'] + config_lines(configs, k)
}

/// The header line holds no entry.
pub proof fn lemma_header_holds_nothing()
    ensures
        free_of(config_header(), '\n'),
        xconfig_entry(config_header()) == None::<XConfigView>,
{
    reveal_strlit("#size\txhot\tyhot\tPath to PNG image\tdelay");
    let header = config_header();
    assert(header.len() == 39);
    assert(header[0] == '#');
    assert(header.last() == 'y');
    lemma_trimmed_plain(header);
}

/// The first `k` written lines read back as the first `k` entries.
pub proof fn lemma_prefix_reads_back(configs: Seq<PngWriteConfig>, k: int)
    requires
        0 <= k <= configs.len(),
        forall|i: int| 0 <= i < configs.len() ==> is_plain_name((#[trigger] configs[i]).filename@),
    ensures
        is_closed(document_prefix(configs, k)),
        document_prefix(configs, k).len() > 0,
        xconfig_of(document_prefix(configs, k)) == entries_of(configs).take(k),
    decreases k,
{
    let header = config_header();
    if k == 0 {
        lemma_header_holds_nothing();
        let empty = Seq::<char>::empty();
        assert(config_lines(configs, 0) =~= empty);
        assert(document_prefix(configs, 0) =~= empty + header + seq!['\n']);
        lemma_lines_push(empty, header);
        assert(lines(empty) =~= Seq::<Seq<char>>::empty());
        let all = lines(document_prefix(configs, 0));
        assert(all =~= seq![header]);
        assert(xconfig_after(all, 0) =~= Seq::<XConfigView>::empty());
        assert(xconfig_after(all, 1) == xconfig_after(all, 0));
        assert(entries_of(configs).take(0) =~= Seq::<XConfigView>::empty());
    } else {
        lemma_prefix_reads_back(configs, k - 1);
        let before = document_prefix(configs, k - 1);
        let config = configs[k - 1];
        let line = config_line(config);
        lemma_line_reads_back(config);
        assert(document_prefix(configs, k) =~= before + line + seq!['\n']);
        lemma_lines_push(before, line);
        let old_lines = lines(before);
        let all = lines(document_prefix(configs, k));
        assert(all == old_lines.push(line));
        lemma_entries_of_prefix(old_lines, line, old_lines.len() as int);
        assert(all[all.len() - 1] == line);
        assert(xconfig_after(all, all.len() as int) == xconfig_after(
            all,
            all.len() - 1,
        ).push(entry_of(config)));
        assert(entries_of(configs).take(k) =~= entries_of(configs).take(k - 1).push(
            entry_of(config),
        ));
    }
}

/// Reading a written sidecar document gives back the entries that were
/// written, in their order, as long as no file name holds a tab or a line
/// feed.
pub proof fn theorem_sidecar_round_trip(configs: Seq<PngWriteConfig>)
    requires
        forall|i: int| 0 <= i < configs.len() ==> is_plain_name((#[trigger] configs[i]).filename@),
    ensures
        xconfig_of(config_document(configs)) == entries_of(configs),
{
    lemma_prefix_reads_back(configs, configs.len() as int);
    assert(entries_of(configs).take(configs.len() as int) =~= entries_of(configs));
}

} // verus!
