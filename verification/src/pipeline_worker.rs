//! The orchestration of a pipeline run: which notifications a run emits,
//! how a batch of files is converted with partial failures tolerated, and
//! what an incremental update of one cursor consists of.
//!
//! Reading and writing files, and running off the caller's thread, is left
//! to the caller; everything between is computed here.

use crate::error::CursorError;
use crate::model::mapping::CursorMapping;
use crate::model::mapping::{copy_names, str_equal};
use crate::pipeline::hyprcursor::{
    create_cursor_theme, extract_xcursor_theme, extract_xcursor_to_hypr_source, file_index,
    file_names, find_file, is_processed, is_source_of, is_theme_compilation,
    is_theme_extraction, lemma_file_index, lemma_stays_found, process_shape, string_views,
    CompiledTheme, ExtractedTheme, Notation, ShapeDirectory,
    ShapeFile, ShapePackage, ShapeSource, ThemeCursor,
};
use crate::pipeline::xcursor_gen::{
    copied_names, copy_views, lemma_planned_sources, link_views, name_views, planned_copies,
    planned_links, planned_notes, CopyView, ThemePlan, XCursorThemeBuilder,
};
use crate::pipeline::win2xcur::converter::{
    conversion_result, convert_windows_cursor, decoding_warnings, windows_cursor_warnings,
    ConversionOptions,
};
use crate::pipeline::xcur2png::extractor::{
    extract_to_pngs, is_extraction_of, ExtractOptions, Extraction,
};
use crate::text::{decimal, push_decimal, push_str, to_chars};
use std::collections::HashMap;
use vstd::prelude::*;

verus! {

/// What a run tells its caller.
#[derive(Debug)]
pub enum Notification {
    /// The run has started.
    Started,
    /// So many of so many files have been processed.
    Progress(usize, usize),
    /// A line for the log.
    Log(String),
    /// The run has ended; so many files were converted.
    Completed(usize),
    /// The run has ended without result, for this reason.
    Failed(String),
    /// Where the finished theme lies.
    ArtifactPath(String),
}

/// The mathematical content of a [`Notification`].
pub enum NoteView {
    Started,
    Progress(usize, usize),
    Log(Seq<char>),
    Completed(usize),
    Failed(Seq<char>),
    ArtifactPath(Seq<char>),
}

impl View for Notification {
    type V = NoteView;

    open spec fn view(&self) -> NoteView {
        match self {
            Notification::Started => NoteView::Started,
            Notification::Progress(done, total) => NoteView::Progress(*done, *total),
            Notification::Log(text) => NoteView::Log(text@),
            Notification::Completed(count) => NoteView::Completed(*count),
            Notification::Failed(reason) => NoteView::Failed(reason@),
            Notification::ArtifactPath(path) => NoteView::ArtifactPath(path@),
        }
    }
}

/// The views of a list of notifications.
pub open spec fn note_views(notes: Seq<Notification>) -> Seq<NoteView> {
    Seq::new(notes.len(), |i: int| notes[i]@)
}

/// Whether a character is one of the two forms of a letter.
pub open spec fn is_letter(c: char, lower: char, upper: char) -> bool {
    c == lower || c == upper
}

/// Whether a file extension marks a Windows cursor: `ani` or `cur`, in
/// any mix of upper and lower case.
pub open spec fn cursor_extension(extension: Seq<char>) -> bool {
    &&& extension.len() == 3
    &&& {
        ||| {
            &&& is_letter(extension[0], 'a', 'A')
            &&& is_letter(extension[1], 'n', 'N')
            &&& is_letter(extension[2], 'i', 'I')
        }
        ||| {
            &&& is_letter(extension[0], 'c', 'C')
            &&& is_letter(extension[1], 'u', 'U')
            &&& is_letter(extension[2], 'r', 'R')
        }
    }
}

/// Tests whether a file extension marks a Windows cursor.
pub fn is_cursor_extension(extension: &str) -> (r: bool)
    ensures
        r == cursor_extension(extension@),
{
    let chars = to_chars(extension);
    if chars.len() != 3 {
        return false;
    }
    let a = chars[0];
    let b = chars[1];
    let c = chars[2];
    ((a == 'a' || a == 'A') && (b == 'n' || b == 'N') && (c == 'i' || c == 'I')) || ((a == 'c'
        || a == 'C') && (b == 'u' || b == 'U') && (c == 'r' || c == 'R'))
}

/// A file of a batch: the stem of its name and its bytes.
#[derive(Debug)]
pub struct SourceFile {
    pub stem: String,
    pub data: Vec<u8>,
}

/// A converted file: the stem of its name, its Xcursor bytes, and what
/// was extracted from them where extraction was asked for.
#[derive(Debug)]
pub struct ConvertedCursor {
    pub stem: String,
    pub xcursor: Vec<u8>,
    pub pngs: Option<Extraction>,
}

/// The options under which the images of a converted file are extracted:
/// every size, numbered from 0, under the stem of the file, with a
/// sidecar document.
pub open spec fn preview_options(options: ExtractOptions, stem: Seq<char>) -> bool {
    &&& options.prefix@ == stem
    &&& options.initial_suffix == 0
    &&& options.write_config
    &&& options.config_name is None
    &&& options.extract_all_sizes
}

/// What processing one file gives: the error of the conversion, or the
/// converted bytes; and where extraction is asked for, the error of the
/// extraction, or what was extracted from the converted bytes.
pub open spec fn is_file_outcome(
    file: SourceFile,
    options: ConversionOptions,
    extract_png: bool,
    r: Result<ConvertedCursor, CursorError>,
) -> bool {
    exists|converted: Result<Vec<u8>, CursorError>|
        #![trigger conversion_result(file.data@, options, converted)]
        {
            &&& conversion_result(file.data@, options, converted)
            &&& match converted {
                Err(e) => r is Err && r->Err_0 == e,
                Ok(bytes) => if !extract_png {
                    &&& r is Ok
                    &&& r->Ok_0.stem@ == file.stem@
                    &&& r->Ok_0.xcursor@ == bytes@
                    &&& r->Ok_0.pngs is None
                } else {
                    exists|extract: ExtractOptions, extracted: Result<Extraction, CursorError>|
                        #![trigger is_extraction_of(bytes@, extract, extracted)]
                        {
                            &&& preview_options(extract, file.stem@)
                            &&& is_extraction_of(bytes@, extract, extracted)
                            &&& match extracted {
                                Err(e) => r is Err && r->Err_0 == e,
                                Ok(extraction) => {
                                    &&& r is Ok
                                    &&& r->Ok_0.stem@ == file.stem@
                                    &&& r->Ok_0.xcursor@ == bytes@
                                    &&& r->Ok_0.pngs == Some(extraction)
                                },
                            }
                        }
                },
            }
        }
}

/// Converts one file of a batch, and extracts its images where that is
/// asked for.
pub fn process_file(file: &SourceFile, options: &ConversionOptions, extract_png: bool) -> (r:
    Result<ConvertedCursor, CursorError>)
    ensures
        is_file_outcome(*file, *options, extract_png, r),
{
    let converted = convert_windows_cursor(file.data.as_slice(), options);
    assert(conversion_result(file.data@, *options, converted));
    let xcursor = match converted {
        Ok(bytes) => bytes,
        Err(e) => {
            return Err(e);
        },
    };
    if !extract_png {
        return Ok(ConvertedCursor { stem: file.stem.clone(), xcursor, pngs: None });
    }
    let extract = ExtractOptions::new().with_prefix(file.stem.as_str()).with_config(true);
    let extracted = extract_to_pngs(xcursor.as_slice(), &extract);
    assert(is_extraction_of(xcursor@, extract, extracted));
    match extracted {
        Ok(extraction) => Ok(
            ConvertedCursor { stem: file.stem.clone(), xcursor, pngs: Some(extraction) },
        ),
        Err(e) => Err(e),
    }
}

/// The progress reports among a list of notifications, in order.
pub open spec fn progress_reports(notes: Seq<Notification>) -> Seq<(usize, usize)>
    decreases notes.len(),
{
    if notes.len() == 0 {
        Seq::empty()
    } else {
        match notes.last() {
            Notification::Progress(done, total) => progress_reports(notes.drop_last()).push(
                (done, total),
            ),
            _ => progress_reports(notes.drop_last()),
        }
    }
}

/// The terminal notifications among a list of notifications, in order.
pub open spec fn terminal_reports(notes: Seq<Notification>) -> Seq<Notification>
    decreases notes.len(),
{
    if notes.len() == 0 {
        Seq::empty()
    } else {
        match notes.last() {
            Notification::Completed(_) | Notification::Failed(_) => terminal_reports(
                notes.drop_last(),
            ).push(notes.last()),
            _ => terminal_reports(notes.drop_last()),
        }
    }
}

/// The progress reports of a run over `total` files of which `k` have
/// been processed: one per file, counting up from 1.
pub open spec fn counted_progress(k: int, total: usize) -> Seq<(usize, usize)> {
    Seq::new(k as nat, |i: int| ((i + 1) as usize, total))
}

/// What a notification adds to the reports of a list.
pub proof fn lemma_reports_push(notes: Seq<Notification>, note: Notification)
    ensures
        progress_reports(notes.push(note)) == (match note {
            Notification::Progress(done, total) => progress_reports(notes).push((done, total)),
            _ => progress_reports(notes),
        }),
        terminal_reports(notes.push(note)) == (match note {
            Notification::Completed(_) | Notification::Failed(_) => terminal_reports(notes).push(
                note,
            ),
            _ => terminal_reports(notes),
        }),
{
    assert(notes.push(note).drop_last() =~= notes);
}

/// Whether a list of notifications holds a line of the log.
pub open spec fn logged(notes: Seq<Notification>, line: Seq<char>) -> bool {
    exists|i: int| 0 <= i < notes.len() && (#[trigger] notes[i])@ == NoteView::Log(line)
}

/// The line that announces file `index` of `total`.
pub open spec fn processing_line(index: nat, total: nat, stem: Seq<char>) -> Seq<char> {
    "Processing "@ + decimal(index) + "/"@ + decimal(total) + ": "@ + stem
}

/// The line that reports a file that could not be converted.
pub open spec fn failure_line(error: CursorError) -> Seq<char> {
    "Failed to convert: "@ + error.spec_message()
}

/// Appends a notification.
fn notify(notes: &mut Vec<Notification>, note: Notification)
    ensures
        final(notes)@ == old(notes)@.push(note),
        note_views(final(notes)@) == note_views(old(notes)@).push(note@),
        forall|line: Seq<char>| #[trigger]
            logged(final(notes)@, line) <== logged(old(notes)@, line),
        note matches Notification::Log(text) ==> logged(final(notes)@, text@),
        progress_reports(final(notes)@) == (match note {
            Notification::Progress(done, total) => progress_reports(old(notes)@).push(
                (done, total),
            ),
            _ => progress_reports(old(notes)@),
        }),
        terminal_reports(final(notes)@) == (match note {
            Notification::Completed(_) | Notification::Failed(_) => terminal_reports(
                old(notes)@,
            ).push(note),
            _ => terminal_reports(old(notes)@),
        }),
{
    proof {
        lemma_reports_push(notes@, note);
    }
    notes.push(note);
    assert(note_views(notes@) =~= note_views(old(notes)@).push(note@));
    assert forall|line: Seq<char>| logged(old(notes)@, line) implies #[trigger] logged(
        notes@,
        line,
    ) by {
        let at = choose|i: int|
            0 <= i < old(notes)@.len() && (#[trigger] old(notes)@[i])@ == NoteView::Log(line);
        assert(notes@[at]@ == NoteView::Log(line));
    }
    assert(notes@[notes@.len() - 1] == note);
}

/// Appends a log line.
fn log(notes: &mut Vec<Notification>, text: String)
    ensures
        final(notes)@ == old(notes)@.push(Notification::Log(text)),
        note_views(final(notes)@) == note_views(old(notes)@).push(NoteView::Log(text@)),
        forall|line: Seq<char>| #[trigger]
            logged(final(notes)@, line) <== logged(old(notes)@, line),
        logged(final(notes)@, text@),
        progress_reports(final(notes)@) == progress_reports(old(notes)@),
        terminal_reports(final(notes)@) == terminal_reports(old(notes)@),
{
    notify(notes, Notification::Log(text));
}

/// The log notifications of a list of lines.
pub open spec fn log_views(lines: Seq<Seq<char>>) -> Seq<NoteView> {
    Seq::new(lines.len(), |i: int| NoteView::Log(lines[i]))
}

/// Appends every line of a list to the log.
fn log_all(notes: &mut Vec<Notification>, lines: &Vec<String>)
    ensures
        final(notes)@.len() >= old(notes)@.len(),
        forall|i: int| 0 <= i < old(notes)@.len() ==> final(notes)@[i] == old(notes)@[i],
        note_views(final(notes)@) == note_views(old(notes)@) + log_views(lines.deep_view()),
        progress_reports(final(notes)@) == progress_reports(old(notes)@),
        terminal_reports(final(notes)@) == terminal_reports(old(notes)@),
        forall|line: Seq<char>| #[trigger]
            logged(final(notes)@, line) <== logged(old(notes)@, line),
        forall|i: int| 0 <= i < lines@.len() ==> logged(final(notes)@, (#[trigger] lines@[i])@),
{
    let mut i: usize = 0;
    assert(note_views(notes@) =~= note_views(old(notes)@) + log_views(
        lines.deep_view().take(0),
    ));
    while i < lines.len()
        invariant
            i <= lines@.len(),
            notes@.len() >= old(notes)@.len(),
            forall|k: int| 0 <= k < old(notes)@.len() ==> notes@[k] == old(notes)@[k],
            note_views(notes@) == note_views(old(notes)@) + log_views(
                lines.deep_view().take(i as int),
            ),
            progress_reports(notes@) == progress_reports(old(notes)@),
            terminal_reports(notes@) == terminal_reports(old(notes)@),
            forall|line: Seq<char>| #[trigger] logged(notes@, line) <== logged(old(notes)@, line),
            forall|k: int| 0 <= k < i ==> logged(notes@, (#[trigger] lines@[k])@),
        decreases lines@.len() - i,
    {
        let ghost before = note_views(notes@);
        log(notes, lines[i].clone());
        assert(lines.deep_view()[i as int] == lines@[i as int]@);
        assert(note_views(notes@) =~= note_views(old(notes)@) + log_views(
            lines.deep_view().take(i + 1),
        ));
        i += 1;
    }
    assert(lines.deep_view().take(lines@.len() as int) =~= lines.deep_view());
}

/// What a batch reports for its first `k` files: for every file the line
/// that announces it, the warnings that its directory deserves, for a
/// file that failed the line that says why, and the progress after the
/// file.
pub open spec fn batch_notes(
    files: Seq<SourceFile>,
    outcomes: Seq<Result<ConvertedCursor, CursorError>>,
    k: int,
) -> Seq<NoteView>
    decreases k,
{
    if k <= 0 {
        Seq::empty()
    } else {
        let announced = batch_notes(files, outcomes, k - 1).push(
            NoteView::Log(processing_line(k as nat, files.len(), files[k - 1].stem@)),
        ) + log_views(decoding_warnings(files[k - 1].data@));
        let reported = match outcomes[k - 1] {
            Ok(_) => announced,
            Err(e) => announced.push(NoteView::Log(failure_line(e))),
        };
        reported.push(NoteView::Progress(k as usize, files.len() as usize))
    }
}

/// What a batch reports for its first files does not change when an
/// outcome is added behind them.
pub proof fn lemma_batch_notes_prefix(
    files: Seq<SourceFile>,
    before: Seq<Result<ConvertedCursor, CursorError>>,
    after: Seq<Result<ConvertedCursor, CursorError>>,
    k: int,
)
    requires
        0 <= k <= before.len(),
        before.len() <= after.len(),
        forall|i: int| 0 <= i < before.len() ==> before[i] == after[i],
    ensures
        batch_notes(files, after, k) == batch_notes(files, before, k),
    decreases k,
{
    if k > 0 {
        lemma_batch_notes_prefix(files, before, after, k - 1);
    }
}

/// What a batch is, given the outcome of each of its files: every outcome
/// is that of its file alone; the converted files are those of the
/// successful outcomes, in order; and the notifications grow by what the
/// batch reports.
pub open spec fn is_batch(
    files: Seq<SourceFile>,
    options: ConversionOptions,
    extract_png: bool,
    outcomes: Seq<Result<ConvertedCursor, CursorError>>,
    converted: Seq<ConvertedCursor>,
    notes_before: Seq<NoteView>,
    notes_after: Seq<NoteView>,
) -> bool {
    &&& are_outcomes(files, options, extract_png, outcomes, converted)
    &&& notes_after == notes_before + batch_notes(files, outcomes, outcomes.len() as int)
}

/// Whether a list holds the outcome of every file of a batch, each taken
/// on its own, and `converted` the files of the successful outcomes, in
/// order.
pub open spec fn are_outcomes(
    files: Seq<SourceFile>,
    options: ConversionOptions,
    extract_png: bool,
    outcomes: Seq<Result<ConvertedCursor, CursorError>>,
    converted: Seq<ConvertedCursor>,
) -> bool {
    &&& outcomes.len() == files.len()
    &&& forall|i: int|
        0 <= i < files.len() ==> is_file_outcome(
            files[i],
            options,
            extract_png,
            #[trigger] outcomes[i],
        )
    &&& converted == converted_among(outcomes, outcomes.len() as int)
}

/// What a batch gives.
#[derive(Debug)]
pub struct BatchOutcome {
    /// The converted files, in the order of the batch.
    pub converted: Vec<ConvertedCursor>,
    /// The number of files that were converted.
    pub processed: usize,
    /// The number of files that failed.
    pub failed: usize,
}

/// Converts a batch of files, one after the other.
///
/// Every file is processed on its own: a file that fails is logged and
/// counted, and the batch goes on. After every file, converted or not, a
/// progress notification reports how many files are done. No terminal
/// notification is emitted here.
pub fn convert_batch(
    files: &Vec<SourceFile>,
    options: &ConversionOptions,
    extract_png: bool,
    notes: &mut Vec<Notification>,
) -> (r: BatchOutcome)
    ensures
        r.processed + r.failed == files@.len(),
        r.converted@.len() == r.processed,
        old(notes)@.len() <= final(notes)@.len(),
        final(notes)@.take(old(notes)@.len() as int) == old(notes)@,
        progress_reports(final(notes)@) == progress_reports(old(notes)@) + counted_progress(
            files@.len() as int,
            files@.len() as usize,
        ),
        terminal_reports(final(notes)@) == terminal_reports(old(notes)@),
        exists|outcomes: Seq<Result<ConvertedCursor, CursorError>>|
            #![trigger converted_among(outcomes, outcomes.len() as int)]
            is_batch(
                files@,
                *options,
                extract_png,
                outcomes,
                r.converted@,
                note_views(old(notes)@),
                note_views(final(notes)@),
            ),
{
    let total = files.len();
    let mut converted: Vec<ConvertedCursor> = Vec::new();
    let mut failed: usize = 0;
    let ghost mut outcomes: Seq<Result<ConvertedCursor, CursorError>> = Seq::empty();
    let ghost before_notes = progress_reports(notes@);
    let mut k: usize = 0;
    assert(progress_reports(notes@) =~= before_notes + counted_progress(0, total));
    assert(notes@.take(notes@.len() as int) =~= notes@);
    assert(note_views(notes@) =~= note_views(notes@) + batch_notes(files@, outcomes, 0));
    while k < total
        invariant
            k <= total == files@.len(),
            converted@.len() + failed == k,
            outcomes.len() == k,
            forall|i: int|
                0 <= i < k ==> is_file_outcome(
                    files@[i],
                    *options,
                    extract_png,
                    #[trigger] outcomes[i],
                ),
            converted@ == converted_among(outcomes, k as int),
            note_views(notes@) == note_views(old(notes)@) + batch_notes(files@, outcomes, k as int),
            old(notes)@.len() <= notes@.len(),
            notes@.take(old(notes)@.len() as int) == old(notes)@,
            progress_reports(notes@) == before_notes + counted_progress(k as int, total),
            terminal_reports(notes@) == terminal_reports(old(notes)@),
        decreases total - k,
    {
        let file = &files[k];
        let mut line = String::new();
        push_str(&mut line, "Processing ");
        push_decimal(&mut line, (k + 1) as u64);
        push_str(&mut line, "/");
        push_decimal(&mut line, total as u64);
        push_str(&mut line, ": ");
        push_str(&mut line, file.stem.as_str());
        assert(line@ =~= processing_line((k + 1) as nat, files@.len(), file.stem@));
        let ghost reported = note_views(notes@);
        log(notes, line);
        let warnings = windows_cursor_warnings(file.data.as_slice());
        log_all(notes, &warnings);
        let outcome = process_file(file, options, extract_png);
        let ghost earlier = outcomes;
        proof {
            outcomes = outcomes.push(outcome);
            lemma_converted_prefix(earlier, outcomes, k as int);
            lemma_batch_notes_prefix(files@, earlier, outcomes, k as int);
        }
        match outcome {
            Ok(cursor) => {
                converted.push(cursor);
            },
            Err(e) => {
                let mut line = String::new();
                push_str(&mut line, "Failed to convert: ");
                push_str(&mut line, e.message());
                assert(line@ =~= failure_line(e));
                log(notes, line);
                failed += 1;
            },
        }
        notify(notes, Notification::Progress(k + 1, total));
        k += 1;
        assert(progress_reports(notes@) =~= before_notes + counted_progress(k as int, total));
        assert(notes@.take(old(notes)@.len() as int) =~= old(notes)@);
        assert(note_views(notes@) =~= note_views(old(notes)@) + batch_notes(
            files@,
            outcomes,
            k as int,
        ));
    }
    BatchOutcome { processed: converted.len(), converted, failed }
}

/// The converted files among the first `k` outcomes, in order.
pub open spec fn converted_among(
    outcomes: Seq<Result<ConvertedCursor, CursorError>>,
    k: int,
) -> Seq<ConvertedCursor>
    decreases k,
{
    if k <= 0 {
        Seq::empty()
    } else {
        match outcomes[k - 1] {
            Ok(cursor) => converted_among(outcomes, k - 1).push(cursor),
            Err(_) => converted_among(outcomes, k - 1),
        }
    }
}

/// What was collected from the first outcomes does not change when an
/// outcome is added behind them.
pub proof fn lemma_converted_prefix(
    before: Seq<Result<ConvertedCursor, CursorError>>,
    after: Seq<Result<ConvertedCursor, CursorError>>,
    k: int,
)
    requires
        0 <= k <= before.len(),
        before.len() <= after.len(),
        forall|i: int| 0 <= i < before.len() ==> before[i] == after[i],
    ensures
        converted_among(after, k) == converted_among(before, k),
    decreases k,
{
    if k > 0 {
        lemma_converted_prefix(before, after, k - 1);
    }
}

/// Whether the options of a conversion change nothing: no scaling, no
/// hotspot overrides, no target sizes.
pub open spec fn is_plain(options: ConversionOptions) -> bool {
    &&& options.scale is None
    &&& options.hotspot_overrides@ == Map::<u32, (u32, u32)>::empty()
    &&& options.target_sizes@.len() == 0
}

/// What a run reports and gives.
#[derive(Debug)]
pub struct PipelineReport {
    /// The notifications of the run, in order.
    pub notifications: Vec<Notification>,
    /// The converted files.
    pub converted: Vec<ConvertedCursor>,
}

/// The shape of the notifications of every run: the first says that the
/// run has started, the last is the only terminal one, and the progress
/// reports count the files one by one.
pub open spec fn well_reported(notes: Seq<Notification>, files: int) -> bool {
    &&& notes.len() >= 2
    &&& notes[0] is Started
    &&& terminal_reports(notes) == seq![notes.last()]
    &&& (notes.last() is Completed || notes.last() is Failed)
    &&& (notes.last() is Completed ==> progress_reports(notes) == counted_progress(
        files,
        files as usize,
    ))
}

/// Converts the cursors of a directory to Xcursor files.
///
/// Without files the run fails at once. Otherwise every file is
/// processed, and the run completes with the number of converted files,
/// whatever number failed.
pub fn run_ani_to_xcur_pipeline(files: &Vec<SourceFile>) -> (r: PipelineReport)
    ensures
        well_reported(r.notifications@, files@.len() as int),
        files@.len() == 0 ==> r.converted@.len() == 0 && note_views(r.notifications@) == seq![
            NoteView::Started,
            NoteView::Failed("No .ani or .cur files found"@),
        ],
        files@.len() > 0 ==> r.notifications@.last() == Notification::Completed(
            r.converted@.len() as usize,
        ),
        files@.len() > 0 ==> exists|
            options: ConversionOptions,
            outcomes: Seq<Result<ConvertedCursor, CursorError>>,
        |
            #![trigger converted_among(outcomes, outcomes.len() as int), options.scale]
            {
                &&& is_plain(options)
                &&& is_batch(
                    files@,
                    options,
                    false,
                    outcomes,
                    r.converted@,
                    seq![
                        NoteView::Started,
                        NoteView::Log(
                            "Found "@ + decimal(files@.len()) + " cursor files"@,
                        ),
                    ],
                    note_views(r.notifications@).drop_last(),
                )
            },
        r.converted@.len() <= files@.len(),
{
    let mut notes: Vec<Notification> = Vec::new();
    notify(&mut notes, Notification::Started);
    if files.len() == 0 {
        notify(&mut notes, Notification::Failed("No .ani or .cur files found".to_owned()));
        assert(note_views(notes@) =~= seq![
            NoteView::Started,
            NoteView::Failed("No .ani or .cur files found"@),
        ]);
        return PipelineReport { notifications: notes, converted: Vec::new() };
    }
    let mut line = String::new();
    push_str(&mut line, "Found ");
    push_decimal(&mut line, files.len() as u64);
    push_str(&mut line, " cursor files");
    assert(line@ =~= "Found "@ + decimal(files@.len()) + " cursor files"@);
    log(&mut notes, line);
    let options = ConversionOptions::new();
    let ghost head = notes@;
    assert(note_views(head) =~= seq![
        NoteView::Started,
        NoteView::Log("Found "@ + decimal(files@.len()) + " cursor files"@),
    ]);
    let batch = convert_batch(files, &options, false, &mut notes);
    assert(notes@[0] == notes@.take(head.len() as int)[0]);
    let ghost reported = note_views(notes@);
    let ghost outcomes = choose|outcomes: Seq<Result<ConvertedCursor, CursorError>>|
        #![trigger converted_among(outcomes, outcomes.len() as int)]
        is_batch(
            files@,
            options,
            false,
            outcomes,
            batch.converted@,
            note_views(head),
            reported,
        );
    notify(&mut notes, Notification::Completed(batch.processed));
    assert(note_views(notes@).drop_last() =~= reported);
    assert(is_batch(
        files@,
        options,
        false,
        outcomes,
        batch.converted@,
        note_views(head),
        note_views(notes@).drop_last(),
    ));
    assert(is_plain(options));
    assert(progress_reports(notes@) =~= counted_progress(
        files@.len() as int,
        files@.len() as usize,
    ));
    PipelineReport { notifications: notes, converted: batch.converted }
}

/// How a run that tolerates failures ends: with a line that sums up the
/// failures, if there were any, and the number of converted files.
pub open spec fn summary_notes(converted: nat, files: nat) -> Seq<NoteView> {
    if converted < files {
        seq![
            NoteView::Log(
                "Completed with "@ + decimal(converted) + " successes and "@ + decimal(
                    (files - converted) as nat,
                ) + " failures"@,
            ),
            NoteView::Completed(converted as usize),
        ]
    } else {
        seq![NoteView::Completed(converted as usize)]
    }
}

/// Converts the cursors of a directory to PNG files, by way of Xcursor
/// files that are not kept.
///
/// Without files the run fails at once. Otherwise every file is
/// processed; failures are summed up in a log line, and the run completes
/// with the number of converted files.
pub fn run_ani_to_png_pipeline(files: &Vec<SourceFile>) -> (r: PipelineReport)
    ensures
        well_reported(r.notifications@, files@.len() as int),
        files@.len() == 0 ==> r.converted@.len() == 0 && note_views(r.notifications@) == seq![
            NoteView::Started,
            NoteView::Failed("No .ani or .cur files found in input directory"@),
        ],
        files@.len() > 0 ==> r.notifications@.last() == Notification::Completed(
            r.converted@.len() as usize,
        ),
        files@.len() > 0 ==> exists|
            options: ConversionOptions,
            outcomes: Seq<Result<ConvertedCursor, CursorError>>,
        |
            #![trigger converted_among(outcomes, outcomes.len() as int), options.scale]
            {
                &&& is_plain(options)
                &&& is_batch(
                    files@,
                    options,
                    true,
                    outcomes,
                    r.converted@,
                    seq![
                        NoteView::Started,
                        NoteView::Log(
                            "Found "@ + decimal(files@.len()) + " cursor files to process"@,
                        ),
                    ],
                    note_views(r.notifications@).take(
                        2 + batch_notes(files@, outcomes, outcomes.len() as int).len() as int,
                    ),
                )
                &&& note_views(r.notifications@).skip(
                    2 + batch_notes(files@, outcomes, outcomes.len() as int).len() as int,
                ) == summary_notes(r.converted@.len(), files@.len())
            },
        r.converted@.len() <= files@.len(),
{
    let mut notes: Vec<Notification> = Vec::new();
    notify(&mut notes, Notification::Started);
    if files.len() == 0 {
        notify(
            &mut notes,
            Notification::Failed("No .ani or .cur files found in input directory".to_owned()),
        );
        assert(note_views(notes@) =~= seq![
            NoteView::Started,
            NoteView::Failed("No .ani or .cur files found in input directory"@),
        ]);
        return PipelineReport { notifications: notes, converted: Vec::new() };
    }
    let mut line = String::new();
    push_str(&mut line, "Found ");
    push_decimal(&mut line, files.len() as u64);
    push_str(&mut line, " cursor files to process");
    assert(line@ =~= "Found "@ + decimal(files@.len()) + " cursor files to process"@);
    log(&mut notes, line);
    let options = ConversionOptions::new();
    let ghost head = notes@;
    assert(note_views(head) =~= seq![
        NoteView::Started,
        NoteView::Log("Found "@ + decimal(files@.len()) + " cursor files to process"@),
    ]);
    let batch = convert_batch(files, &options, true, &mut notes);
    assert(notes@[0] == notes@.take(head.len() as int)[0]);
    let ghost reported = note_views(notes@);
    let ghost outcomes = choose|outcomes: Seq<Result<ConvertedCursor, CursorError>>|
        #![trigger converted_among(outcomes, outcomes.len() as int)]
        is_batch(
            files@,
            options,
            true,
            outcomes,
            batch.converted@,
            note_views(head),
            reported,
        );
    if batch.failed > 0 {
        let mut line = String::new();
        push_str(&mut line, "Completed with ");
        push_decimal(&mut line, batch.processed as u64);
        push_str(&mut line, " successes and ");
        push_decimal(&mut line, batch.failed as u64);
        push_str(&mut line, " failures");
        assert(line@ =~= "Completed with "@ + decimal(batch.processed as nat)
            + " successes and "@ + decimal(batch.failed as nat) + " failures"@);
        log(&mut notes, line);
    }
    notify(&mut notes, Notification::Completed(batch.processed));
    proof {
        let cut = 2 + batch_notes(files@, outcomes, outcomes.len() as int).len() as int;
        assert(reported.len() == cut);
        assert(note_views(notes@).take(cut) =~= reported);
        assert(note_views(notes@).skip(cut) =~= summary_notes(
            batch.converted@.len(),
            files@.len(),
        ));
        assert(is_plain(options));
    }
    assert(progress_reports(notes@) =~= counted_progress(
        files@.len() as int,
        files@.len() as usize,
    ));
    PipelineReport { notifications: notes, converted: batch.converted }
}

/// The files of a shape directory that hold the sources of a shape.
pub fn shape_files(source: &ShapeSource) -> (files: Vec<ShapeFile>)
    ensures
        files@.len() == source.files@.len(),
        forall|i: int|
            0 <= i < files@.len() ==> (#[trigger] files@[i]).name@ == source.files@[i].filename@
                && files@[i].content@ == source.files@[i].png@,
{
    let mut files: Vec<ShapeFile> = Vec::new();
    let mut i: usize = 0;
    while i < source.files.len()
        invariant
            i <= source.files@.len(),
            files@.len() == i,
            forall|k: int|
                0 <= k < i ==> (#[trigger] files@[k]).name@ == source.files@[k].filename@
                    && files@[k].content@ == source.files@[k].png@,
        decreases source.files@.len() - i,
    {
        let content = source.files[i].png.clone();
        assert(content@ =~= source.files@[i as int].png@);
        files.push(ShapeFile { name: source.files[i].filename.clone(), content });
        i += 1;
    }
    files
}

/// What updating one cursor gives: its Xcursor file where the conversion
/// succeeded, the aliases to link to it, its packed shape where packing
/// succeeded too, and the log of what happened.
#[derive(Debug)]
pub struct CursorUpdate {
    pub x11_name: String,
    pub xcursor: Option<Vec<u8>>,
    pub links: Vec<String>,
    pub package: Option<ShapePackage>,
    pub log: Vec<String>,
}

/// What an update of one cursor is, given its source file: the source is
/// converted under the hotspot overrides of the cursor; the result is
/// turned into the sources of a shape with the aliases as overrides; and
/// the shape is packed. A step that fails leaves what the steps before it
/// gave.
pub open spec fn is_cursor_update(
    data: Seq<u8>,
    options: ConversionOptions,
    aliases: Seq<Seq<char>>,
    update: CursorUpdate,
) -> bool {
    exists|converted: Result<Vec<u8>, CursorError>|
        #![trigger conversion_result(data, options, converted)]
        {
            &&& conversion_result(data, options, converted)
            &&& match converted {
                Err(_) => update.xcursor is None && update.package is None && update.links@.len()
                    == 0,
                Ok(bytes) => {
                    &&& update.xcursor is Some
                    &&& update.xcursor->Some_0@ == bytes@
                    &&& string_views(update.links@) == aliases
                    &&& exists|source: Result<ShapeSource, CursorError>|
                        #![trigger is_source_of(bytes@, update.x11_name@, None, aliases, source)]
                        {
                            &&& is_source_of(bytes@, update.x11_name@, None, aliases, source)
                            &&& match source {
                                Err(_) => update.package is None,
                                Ok(shape) => exists|
                                    files: Seq<ShapeFile>,
                                    packed: Result<ShapePackage, CursorError>,
                                |
                                    #![trigger is_processed(
                                        update.x11_name@,
                                        Notation::Hl,
                                        shape.meta@,
                                        files,
                                        packed,
                                    )]
                                    {
                                        &&& files.len() == shape.files@.len()
                                        &&& forall|i: int|
                                            0 <= i < files.len() ==> (#[trigger] files[i]).name@
                                                == shape.files@[i].filename@ && files[i].content@
                                                == shape.files@[i].png@
                                        &&& is_processed(
                                            update.x11_name@,
                                            Notation::Hl,
                                            shape.meta@,
                                            files,
                                            packed,
                                        )
                                        &&& match packed {
                                            Ok(package) => update.package == Some(package),
                                            Err(_) => update.package is None,
                                        }
                                    },
                            }
                        }
                },
            }
        }
}

/// Whether a log holds a line.
pub open spec fn holds_line(log: Seq<String>, line: Seq<char>) -> bool {
    exists|i: int| 0 <= i < log.len() && (#[trigger] log[i])@ == line
}

/// Whether a log holds every line of a list.
pub open spec fn holds_lines(log: Seq<String>, lines: Seq<Seq<char>>) -> bool {
    forall|k: int| 0 <= k < lines.len() ==> holds_line(log, #[trigger] lines[k])
}

/// Appends a line to a log.
fn push_line(log: &mut Vec<String>, line: String)
    ensures
        final(log)@ == old(log)@.push(line),
        forall|text: Seq<char>| #[trigger]
            holds_line(final(log)@, text) <== holds_line(old(log)@, text),
        holds_line(final(log)@, line@),
{
    log.push(line);
    assert forall|text: Seq<char>| holds_line(old(log)@, text) implies #[trigger] holds_line(
        log@,
        text,
    ) by {
        let at = choose|i: int| 0 <= i < old(log)@.len() && (#[trigger] old(log)@[i])@ == text;
        assert(log@[at]@ == text);
    }
    assert(log@[log@.len() - 1]@ == line@);
}

/// Appends the lines of a list to a log.
fn push_lines(log: &mut Vec<String>, more: &Vec<String>)
    ensures
        forall|text: Seq<char>| #[trigger]
            holds_line(final(log)@, text) <== holds_line(old(log)@, text),
        holds_lines(final(log)@, more.deep_view()),
{
    let mut i: usize = 0;
    while i < more.len()
        invariant
            i <= more@.len(),
            forall|text: Seq<char>| #[trigger]
                holds_line(log@, text) <== holds_line(old(log)@, text),
            forall|k: int| 0 <= k < i ==> holds_line(log@, #[trigger] more.deep_view()[k]),
        decreases more@.len() - i,
    {
        assert(more.deep_view()[i as int] == more@[i as int]@);
        push_line(log, more[i].clone());
        i += 1;
    }
}

/// Updates one cursor of a theme from its source file.
pub fn update_cursor(
    x11_name: &str,
    data: &[u8],
    options: &ConversionOptions,
    aliases: &Vec<String>,
) -> (update: CursorUpdate)
    ensures
        update.x11_name@ == x11_name@,
        is_cursor_update(data@, *options, string_views(aliases@), update),
        holds_lines(update.log@, decoding_warnings(data@)),
        update.package matches Some(package) ==> holds_lines(
            update.log@,
            package.warnings.deep_view(),
        ),
{
    let mut log: Vec<String> = Vec::new();
    let warnings = windows_cursor_warnings(data);
    push_lines(&mut log, &warnings);
    let converted = convert_windows_cursor(data, options);
    assert(conversion_result(data@, *options, converted));
    let xcursor = match converted {
        Ok(bytes) => bytes,
        Err(e) => {
            let mut line = String::new();
            push_str(&mut line, "Failed to convert XCursor: ");
            push_str(&mut line, e.message());
            push_line(&mut log, line);
            return CursorUpdate {
                x11_name: x11_name.to_owned(),
                xcursor: None,
                links: Vec::new(),
                package: None,
                log,
            };
        },
    };
    let links = copy_names(aliases);
    assert(string_views(links@) =~= string_views(aliases@));
    let source = extract_xcursor_to_hypr_source(xcursor.as_slice(), x11_name, None, aliases);
    let shape = match source {
        Ok(shape) => shape,
        Err(e) => {
            let mut line = String::new();
            push_str(&mut line, "Failed to extract for Hyprcursor: ");
            push_str(&mut line, e.message());
            push_line(&mut log, line);
            let update = CursorUpdate {
                x11_name: x11_name.to_owned(),
                xcursor: Some(xcursor),
                links,
                package: None,
                log,
            };
            assert(is_source_of(xcursor@, update.x11_name@, None, string_views(aliases@), source));
            return update;
        },
    };
    let files = shape_files(&shape);
    let packed = process_shape(x11_name, Notation::Hl, shape.meta.as_str(), &files);
    assert(is_processed(x11_name@, Notation::Hl, shape.meta@, files@, packed));
    let package = match packed {
        Ok(package) => {
            push_lines(&mut log, &package.warnings);
            let mut line = String::new();
            push_str(&mut line, "Updated ");
            push_str(&mut line, x11_name);
            push_line(&mut log, line);
            Some(package)
        },
        Err(e) => {
            let mut line = String::new();
            push_str(&mut line, "Failed to compile Hyprcursor: ");
            push_str(&mut line, e.message());
            push_line(&mut log, line);
            None
        },
    };
    let update = CursorUpdate {
        x11_name: x11_name.to_owned(),
        xcursor: Some(xcursor),
        links,
        package,
        log,
    };
    assert(is_source_of(xcursor@, update.x11_name@, None, string_views(aliases@), source));
    assert(is_processed(update.x11_name@, Notation::Hl, shape.meta@, files@, packed));
    update
}

/// The hotspot overrides of one cursor, by nominal size.
#[derive(Debug)]
pub struct CursorOverrides {
    pub x11_name: String,
    pub hotspots: HashMap<u32, (u32, u32)>,
}

/// The index of the first of the first `k` entries for a cursor, or `k`.
pub open spec fn overrides_index(list: Seq<CursorOverrides>, name: Seq<char>, k: int) -> int
    decreases k,
{
    if k <= 0 {
        0
    } else if overrides_index(list, name, k - 1) < k - 1 {
        overrides_index(list, name, k - 1)
    } else if list[k - 1].x11_name@ == name {
        k - 1
    } else {
        k
    }
}

/// The hotspot overrides of a cursor: those of its first entry, or none.
pub open spec fn overrides_for(list: Seq<CursorOverrides>, name: Seq<char>) -> Map<
    u32,
    (u32, u32),
> {
    if overrides_index(list, name, list.len() as int) < list.len() {
        list[overrides_index(list, name, list.len() as int)].hotspots@
    } else {
        Map::empty()
    }
}

/// The options under which a cursor is updated: no scaling, no target
/// sizes, and the hotspot overrides of the cursor.
pub fn update_options(list: &Vec<CursorOverrides>, x11_name: &str) -> (options: ConversionOptions)
    ensures
        options.scale is None,
        options.target_sizes@.len() == 0,
        options.hotspot_overrides@ == overrides_for(list@, x11_name@),
{
    let mut options = ConversionOptions::new();
    let mut k: usize = 0;
    while k < list.len()
        invariant
            k <= list@.len(),
            overrides_index(list@, x11_name@, k as int) == k,
            options.scale is None,
            options.target_sizes@.len() == 0,
            options.hotspot_overrides@ == Map::<u32, (u32, u32)>::empty(),
        decreases list@.len() - k,
    {
        if str_equal(list[k].x11_name.as_str(), x11_name) {
            proof {
                lemma_overrides_found(list@, x11_name@, k as int, list@.len() as int);
            }
            options.hotspot_overrides = list[k].hotspots.clone();
            return options;
        }
        k += 1;
    }
    options
}

/// An entry that is found among the first entries is found among all.
pub proof fn lemma_overrides_found(list: Seq<CursorOverrides>, name: Seq<char>, i: int, n: int)
    requires
        0 <= i < n <= list.len(),
        overrides_index(list, name, i) == i,
        list[i].x11_name@ == name,
    ensures
        overrides_index(list, name, n) == i,
    decreases n - i,
{
    if n > i + 1 {
        lemma_overrides_found(list, name, i, n - 1);
    }
}

/// The index of the source file of a Windows cursor name: the file
/// `<name>.ani` where it is there, else the file `<name>.cur`. It is the
/// number of files where neither is there.
pub open spec fn source_index(names: Seq<Seq<char>>, win_name: Seq<char>) -> int {
    if file_index(names, win_name + ".ani"@, names.len() as int) < names.len() {
        file_index(names, win_name + ".ani"@, names.len() as int)
    } else {
        file_index(names, win_name + ".cur"@, names.len() as int)
    }
}

/// Finds the source file of a Windows cursor name.
pub fn find_source_file(sources: &Vec<ShapeFile>, win_name: &str) -> (r: Option<usize>)
    ensures
        match r {
            Some(i) => i < sources@.len() && i == source_index(file_names(sources@), win_name@),
            None => source_index(file_names(sources@), win_name@) == sources@.len(),
        },
{
    let mut ani = win_name.to_owned();
    push_str(&mut ani, ".ani");
    match find_file(sources, ani.as_str()) {
        Some(i) => Some(i),
        None => {
            let mut cur = win_name.to_owned();
            push_str(&mut cur, ".cur");
            find_file(sources, cur.as_str())
        },
    }
}

/// The cursors that an incremental update reaches among the first `k`
/// changed names: those that are mapped and whose source file is there.
/// Each is listed with the index of its name and of its source file.
pub open spec fn update_targets(
    mapping: Map<Seq<char>, Seq<char>>,
    names: Seq<Seq<char>>,
    changed: Seq<Seq<char>>,
    k: int,
) -> Seq<(int, int)>
    decreases k,
{
    if k <= 0 {
        Seq::empty()
    } else if mapping.contains_key(changed[k - 1]) && source_index(
        names,
        mapping[changed[k - 1]],
    ) < names.len() {
        update_targets(mapping, names, changed, k - 1).push(
            (k - 1, source_index(names, mapping[changed[k - 1]])),
        )
    } else {
        update_targets(mapping, names, changed, k - 1)
    }
}

/// What an incremental update reports and gives.
#[derive(Debug)]
pub struct IncrementalReport {
    /// The notifications of the run, in order.
    pub notifications: Vec<Notification>,
    /// The updates of the cursors that were reached, in order.
    pub updates: Vec<CursorUpdate>,
}

/// Updates the named cursors of a theme, each on its own.
///
/// A changed name that the mapping does not know is passed over; one
/// whose source file is not among `sources` is logged. Every other one is
/// updated from its source file, under its own hotspot overrides and with
/// its aliases. After every name a progress notification reports how many
/// names are done, and the run completes with the number of cursors that
/// were reached.
pub fn run_incremental_theme_update(
    sources: &Vec<ShapeFile>,
    mapping: &CursorMapping,
    modified_cursors: &Vec<String>,
    hotspot_overrides: &Vec<CursorOverrides>,
) -> (r: IncrementalReport)
    ensures
        well_reported(r.notifications@, modified_cursors@.len() as int),
        r.notifications@.last() == Notification::Completed(r.updates@.len() as usize),
        r.updates@.len() == update_targets(
            mapping@.x11_to_win,
            file_names(sources@),
            string_views(modified_cursors@),
            modified_cursors@.len() as int,
        ).len(),
        forall|j: int|
            0 <= j < r.updates@.len() ==> is_reached_update(
                sources@,
                *mapping,
                string_views(modified_cursors@),
                hotspot_overrides@,
                update_targets(
                    mapping@.x11_to_win,
                    file_names(sources@),
                    string_views(modified_cursors@),
                    modified_cursors@.len() as int,
                )[j],
                #[trigger] r.updates@[j],
            ),
{
    let ghost names = file_names(sources@);
    let ghost changed = string_views(modified_cursors@);
    let total = modified_cursors.len();
    let mut notes: Vec<Notification> = Vec::new();
    notify(&mut notes, Notification::Started);
    let mut line = String::new();
    push_str(&mut line, "Starting incremental update for ");
    push_decimal(&mut line, total as u64);
    push_str(&mut line, " cursors...");
    log(&mut notes, line);
    let mut updates: Vec<CursorUpdate> = Vec::new();
    let mut k: usize = 0;
    assert(progress_reports(notes@) =~= counted_progress(0, total));
    while k < total
        invariant
            k <= total == modified_cursors@.len(),
            names == file_names(sources@),
            changed == string_views(modified_cursors@),
            notes@.len() >= 2,
            notes@[0] is Started,
            terminal_reports(notes@) == Seq::<Notification>::empty(),
            progress_reports(notes@) == counted_progress(k as int, total),
            updates@.len() == update_targets(mapping@.x11_to_win, names, changed, k as int).len(),
            forall|j: int|
                0 <= j < updates@.len() ==> is_reached_update(
                    sources@,
                    *mapping,
                    changed,
                    hotspot_overrides@,
                    update_targets(mapping@.x11_to_win, names, changed, k as int)[j],
                    #[trigger] updates@[j],
                ),
        decreases total - k,
    {
        let x11_name = modified_cursors[k].as_str();
        assert(changed[k as int] == x11_name@);
        match mapping.get_win_name(x11_name) {
            None => {},
            Some(win_name) => {
                let mut line = String::new();
                push_str(&mut line, "Updating ");
                push_str(&mut line, x11_name);
                push_str(&mut line, " -> ");
                push_str(&mut line, win_name.as_str());
                log(&mut notes, line);
                match find_source_file(sources, win_name.as_str()) {
                    None => {
                        let mut line = String::new();
                        push_str(&mut line, "Source file not found for ");
                        push_str(&mut line, win_name.as_str());
                        log(&mut notes, line);
                    },
                    Some(at) => {
                        let options = update_options(hotspot_overrides, x11_name);
                        let aliases = mapping.get_symlinks(x11_name);
                        let update = update_cursor(
                            x11_name,
                            sources[at].content.as_slice(),
                            &options,
                            &aliases,
                        );
                        let mut i: usize = 0;
                        while i < update.log.len()
                            invariant
                                i <= update.log@.len(),
                                notes@.len() >= 2,
                                notes@[0] is Started,
                                terminal_reports(notes@) == Seq::<Notification>::empty(),
                                progress_reports(notes@) == counted_progress(k as int, total),
                            decreases update.log@.len() - i,
                        {
                            log(&mut notes, update.log[i].clone());
                            i += 1;
                        }
                        proof {
                            assert(string_views(aliases@) =~= aliases.deep_view());
                            assert(is_reached_update(
                                sources@,
                                *mapping,
                                changed,
                                hotspot_overrides@,
                                (k as int, at as int),
                                update,
                            ));
                        }
                        updates.push(update);
                    },
                }
            },
        }
        notify(&mut notes, Notification::Progress(k + 1, total));
        k += 1;
        assert(progress_reports(notes@) =~= counted_progress(k as int, total));
    }
    log(&mut notes, "Incremental update completed.".to_owned());
    notify(&mut notes, Notification::Completed(updates.len()));
    IncrementalReport { notifications: notes, updates }
}

/// The aliases of a name in a mapping: those of its entry, or none.
pub open spec fn aliases_of(mapping: CursorMapping, name: Seq<char>) -> Seq<Seq<char>> {
    if mapping@.symlinks.contains_key(name) {
        mapping@.symlinks[name]
    } else {
        Seq::empty()
    }
}

/// What the update of a cursor that was reached is: the update of the
/// changed name `target.0` from the source file `target.1`, under the
/// hotspot overrides of the cursor and with its aliases.
pub open spec fn is_reached_update(
    sources: Seq<ShapeFile>,
    mapping: CursorMapping,
    changed: Seq<Seq<char>>,
    overrides: Seq<CursorOverrides>,
    target: (int, int),
    update: CursorUpdate,
) -> bool {
    &&& update.x11_name@ == changed[target.0]
    &&& exists|options: ConversionOptions|
        #![trigger options.hotspot_overrides@]
        {
            &&& options.scale is None
            &&& options.target_sizes@.len() == 0
            &&& options.hotspot_overrides@ == overrides_for(overrides, changed[target.0])
            &&& is_cursor_update(
                sources[target.1].content@,
                options,
                aliases_of(mapping, changed[target.0]),
                update,
            )
        }
}

/// The stems of a list of converted files.
pub open spec fn converted_stems(converted: Seq<ConvertedCursor>) -> Seq<Seq<char>> {
    Seq::new(converted.len(), |i: int| converted[i].stem@)
}

/// Lists the stems of the converted files.
fn list_stems(converted: &Vec<ConvertedCursor>) -> (stems: Vec<String>)
    ensures
        name_views(stems@) == converted_stems(converted@),
{
    let mut stems: Vec<String> = Vec::new();
    let mut i: usize = 0;
    while i < converted.len()
        invariant
            i <= converted@.len(),
            stems@.len() == i,
            forall|k: int| 0 <= k < i ==> (#[trigger] stems@[k])@ == converted@[k].stem@,
        decreases converted@.len() - i,
    {
        stems.push(converted[i].stem.clone());
        i += 1;
    }
    assert(name_views(stems@) =~= converted_stems(converted@));
    stems
}

/// The names of those of the first `j` links that point to `dest`.
pub open spec fn links_to(links: Seq<(Seq<char>, Seq<char>)>, dest: Seq<char>, j: int) -> Seq<
    Seq<char>,
>
    decreases j,
{
    if j <= 0 {
        Seq::empty()
    } else if links[j - 1].1 == dest {
        links_to(links, dest, j - 1).push(links[j - 1].0)
    } else {
        links_to(links, dest, j - 1)
    }
}

/// The cursor of the assembled theme that a planned copy gives: under the
/// name of its destination, the bytes of the first converted file whose
/// stem is its source, with the links that point to it as aliases.
pub open spec fn is_theme_cursor(
    cursor: ThemeCursor,
    copy: CopyView,
    converted: Seq<ConvertedCursor>,
    links: Seq<(Seq<char>, Seq<char>)>,
) -> bool {
    let stems = converted_stems(converted);
    let at = file_index(stems, copy.source, stems.len() as int);
    &&& at < stems.len()
    &&& cursor.stem@ == copy.dest
    &&& cursor.data@ == converted[at].xcursor@
    &&& string_views(cursor.aliases@) == links_to(links, copy.dest, links.len() as int)
}

/// The cursors of the assembled theme: one for every planned copy, in
/// order.
pub open spec fn are_theme_cursors(
    plan: ThemePlan,
    converted: Seq<ConvertedCursor>,
    cursors: Seq<ThemeCursor>,
) -> bool {
    &&& cursors.len() == plan.copies@.len()
    &&& forall|k: int|
        0 <= k < cursors.len() ==> is_theme_cursor(
            #[trigger] cursors[k],
            plan.copies@[k]@,
            converted,
            link_views(plan.links@),
        )
}

/// Lists the cursors of the assembled theme.
fn theme_cursors(plan: &ThemePlan, converted: &Vec<ConvertedCursor>) -> (cursors: Vec<ThemeCursor>)
    requires
        forall|k: int|
            0 <= k < plan.copies@.len() ==> converted_stems(converted@).contains(
                (#[trigger] plan.copies@[k]).source@,
            ),
    ensures
        are_theme_cursors(*plan, converted@, cursors@),
{
    let ghost stems = converted_stems(converted@);
    let ghost links = link_views(plan.links@);
    let mut cursors: Vec<ThemeCursor> = Vec::new();
    let mut k: usize = 0;
    while k < plan.copies.len()
        invariant
            k <= plan.copies@.len(),
            stems == converted_stems(converted@),
            links == link_views(plan.links@),
            forall|i: int|
                0 <= i < plan.copies@.len() ==> stems.contains(
                    (#[trigger] plan.copies@[i]).source@,
                ),
            cursors@.len() == k,
            forall|i: int|
                0 <= i < k ==> is_theme_cursor(
                    #[trigger] cursors@[i],
                    plan.copies@[i]@,
                    converted@,
                    links,
                ),
        decreases plan.copies@.len() - k,
    {
        let copy = &plan.copies[k];
        let mut at: usize = 0;
        while at < converted.len() && !str_equal(
            converted[at].stem.as_str(),
            copy.source.as_str(),
        )
            invariant
                at <= converted@.len(),
                stems == converted_stems(converted@),
                file_index(stems, copy.source@, at as int) == at,
            decreases converted@.len() - at,
        {
            assert(stems[at as int] == converted@[at as int].stem@);
            at += 1;
        }
        proof {
            if at < converted@.len() {
                assert(stems[at as int] == converted@[at as int].stem@);
                lemma_stays_found(stems, copy.source@, at as int, stems.len() as int);
            } else {
                lemma_file_index(stems, copy.source@, stems.len() as int);
                assert(stems.contains(plan.copies@[k as int].source@));
            }
        }
        if at < converted.len() {
            let mut aliases: Vec<String> = Vec::new();
            let mut j: usize = 0;
            assert(string_views(aliases@) =~= links_to(links, copy.dest@, 0));
            while j < plan.links.len()
                invariant
                    j <= plan.links@.len(),
                    links == link_views(plan.links@),
                    string_views(aliases@) == links_to(links, copy.dest@, j as int),
                decreases plan.links@.len() - j,
            {
                assert(links[j as int] == plan.links@[j as int]@);
                if str_equal(plan.links[j].target.as_str(), copy.dest.as_str()) {
                    let ghost before = string_views(aliases@);
                    aliases.push(plan.links[j].link.clone());
                    assert(string_views(aliases@) =~= before.push(plan.links@[j as int].link@));
                }
                j += 1;
            }
            let data = converted[at].xcursor.clone();
            assert(data@ =~= converted@[at as int].xcursor@);
            cursors.push(ThemeCursor { stem: copy.dest.clone(), data, aliases });
        }
        k += 1;
    }
    cursors
}

/// Whether a list holds the shape directories of the sources of an
/// extracted theme: for every shape, in order, a directory of its name
/// with its metadata document and its image files.
pub open spec fn are_shape_directories(theme: ExtractedTheme, dirs: Seq<ShapeDirectory>) -> bool {
    &&& dirs.len() == theme.shapes@.len()
    &&& forall|i: int|
        0 <= i < dirs.len() ==> {
            &&& (#[trigger] dirs[i]).name@ == theme.shapes@[i].name@
            &&& dirs[i].notation == Some(Notation::Hl)
            &&& dirs[i].meta@ == theme.shapes@[i].meta@
            &&& dirs[i].files@.len() == theme.shapes@[i].files@.len()
            &&& forall|f: int|
                0 <= f < dirs[i].files@.len() ==> (#[trigger] dirs[i].files@[f]).name@
                    == theme.shapes@[i].files@[f].filename@ && dirs[i].files@[f].content@
                    == theme.shapes@[i].files@[f].png@
        }
}

/// The shape directories that hold the sources of an extracted theme.
fn shape_directories(theme: &ExtractedTheme) -> (dirs: Vec<ShapeDirectory>)
    ensures
        are_shape_directories(*theme, dirs@),
{
    let mut dirs: Vec<ShapeDirectory> = Vec::new();
    let mut i: usize = 0;
    while i < theme.shapes.len()
        invariant
            i <= theme.shapes@.len(),
            dirs@.len() == i,
            forall|k: int|
                0 <= k < i ==> {
                    &&& (#[trigger] dirs@[k]).name@ == theme.shapes@[k].name@
                    &&& dirs@[k].notation == Some(Notation::Hl)
                    &&& dirs@[k].meta@ == theme.shapes@[k].meta@
                    &&& dirs@[k].files@.len() == theme.shapes@[k].files@.len()
                    &&& forall|f: int|
                        0 <= f < dirs@[k].files@.len() ==> (#[trigger] dirs@[k].files@[f]).name@
                            == theme.shapes@[k].files@[f].filename@ && dirs@[k].files@[f].content@
                            == theme.shapes@[k].files@[f].png@
                },
        decreases theme.shapes@.len() - i,
    {
        let shape = &theme.shapes[i];
        dirs.push(
            ShapeDirectory {
                name: shape.name.clone(),
                notation: Some(Notation::Hl),
                meta: shape.meta.clone(),
                files: shape_files(shape),
            },
        );
        i += 1;
    }
    dirs
}

/// What a full theme conversion reports and gives.
#[derive(Debug)]
pub struct FullThemeReport {
    /// The notifications of the run, in order.
    pub notifications: Vec<Notification>,
    /// The converted files, with their extracted images.
    pub converted: Vec<ConvertedCursor>,
    /// The plan of the X11 theme, once files were converted.
    pub plan: Option<ThemePlan>,
    /// The compiled Hyprcursor theme, once it was compiled.
    pub theme: Option<CompiledTheme>,
}

/// Ends a run with a failure.
fn fail_run(
    notes: Vec<Notification>,
    reason: String,
    converted: Vec<ConvertedCursor>,
    plan: Option<ThemePlan>,
) -> (r: FullThemeReport)
    requires
        notes@.len() >= 1,
        notes@[0] is Started,
        terminal_reports(notes@) == Seq::<Notification>::empty(),
    ensures
        r.notifications@.len() >= 2,
        r.notifications@[0] is Started,
        terminal_reports(r.notifications@) == seq![r.notifications@.last()],
        r.notifications@.last()@ == NoteView::Failed(reason@),
        progress_reports(r.notifications@) == progress_reports(notes@),
        forall|line: Seq<char>| #[trigger] logged(r.notifications@, line) <== logged(notes@, line),
        r.converted == converted,
        r.plan == plan,
        r.theme is None,
{
    let mut notes = notes;
    notify(&mut notes, Notification::Failed(reason));
    FullThemeReport { notifications: notes, converted, plan, theme: None }
}

/// The line that warns of an X11 name whose cursor is missing while the
/// pointer role has no file to stand in for it.
pub open spec fn missing_line(name: Seq<char>) -> Seq<char> {
    "Warning: Fallback missing for "@ + name
}

/// Whether the theme of a run is the one that the mapping plans from the
/// converted files and the names that the theme directory holds already.
pub open spec fn is_planned_theme(
    mapping: CursorMapping,
    converted: Seq<ConvertedCursor>,
    existing: Seq<Seq<char>>,
    plan: ThemePlan,
) -> bool {
    &&& copy_views(plan.copies@) == planned_copies(
        mapping.x11_to_win.names(),
        mapping@.x11_to_win,
        converted_stems(converted),
        existing,
        mapping.x11_to_win.names().len() as int,
    )
    &&& name_views(plan.fallback_missing@) == planned_notes(
        mapping.x11_to_win.names(),
        mapping@.x11_to_win,
        converted_stems(converted),
        mapping.x11_to_win.names().len() as int,
    )
    &&& link_views(plan.links@) == planned_links(
        mapping.symlinks.names(),
        mapping@.symlinks,
        existing + copied_names(copy_views(plan.copies@)),
        mapping.symlinks.names().len() as int,
    )
}

/// Whether the cursors of a planned theme cannot be turned into the
/// sources of shapes, with the error `e`.
pub open spec fn fails_in_extraction(
    theme_name: Seq<char>,
    plan: ThemePlan,
    converted: Seq<ConvertedCursor>,
    e: CursorError,
) -> bool {
    exists|cursors: Seq<ThemeCursor>|
        #![trigger are_theme_cursors(plan, converted, cursors)]
        {
            &&& are_theme_cursors(plan, converted, cursors)
            &&& is_theme_extraction(
                theme_name,
                cursors,
                None,
                Err::<ExtractedTheme, CursorError>(e),
            )
        }
}

/// Whether the sources of the shapes of a planned theme cannot be
/// compiled, with the error `e`.
pub open spec fn fails_in_compilation(
    theme_name: Seq<char>,
    plan: ThemePlan,
    converted: Seq<ConvertedCursor>,
    e: CursorError,
) -> bool {
    exists|cursors: Seq<ThemeCursor>, extracted: ExtractedTheme, dirs: Seq<ShapeDirectory>|
        #![trigger
            are_theme_cursors(plan, converted, cursors),
            are_shape_directories(extracted, dirs),
        ]
        {
            &&& are_theme_cursors(plan, converted, cursors)
            &&& is_theme_extraction(
                theme_name,
                cursors,
                None,
                Ok::<ExtractedTheme, CursorError>(extracted),
            )
            &&& are_shape_directories(extracted, dirs)
            &&& is_theme_compilation(
                Notation::Hl,
                extracted.manifest@,
                dirs,
                Err::<CompiledTheme, CursorError>(e),
            )
        }
}

/// Whether a run that converted files ends as the failure of a later
/// stage does: with the message of the error that the extraction of the
/// theme gives, or else of the error that its compilation gives.
pub open spec fn is_late_failure(
    theme_name: Seq<char>,
    plan: ThemePlan,
    converted: Seq<ConvertedCursor>,
    last: NoteView,
) -> bool {
    exists|e: CursorError|
        #![trigger e.spec_message()]
        {
            &&& last == NoteView::Failed(e.spec_message())
            &&& (fails_in_extraction(theme_name, plan, converted, e) || fails_in_compilation(
                theme_name,
                plan,
                converted,
                e,
            ))
        }
}

/// Converts the cursors of a directory into a complete theme: Xcursor
/// files with extracted images for preview, the X11 theme that the mapping
/// describes, and the Hyprcursor theme compiled from it.
///
/// The run fails at once without files, and after the batch where no file
/// could be converted. Once a file is converted the theme is planned from
/// the converted files and the names that the theme directory holds
/// already, and every name without a cursor and without a pointer to stand
/// in gets a line in the log. The cursors of the theme are then turned
/// into shapes and packed. The run fails exactly when one of these two
/// stages fails, with the message of its error. Otherwise the run names
/// the place of the theme and completes with the number of converted
/// files.
pub fn run_full_theme_pipeline(
    files: &Vec<SourceFile>,
    theme_name: &str,
    theme_output: &str,
    mapping: CursorMapping,
    target_sizes: Vec<u32>,
    existing: &Vec<String>,
) -> (r: FullThemeReport)
    ensures
        well_reported(r.notifications@, files@.len() as int),
        r.converted@.len() <= files@.len(),
        r.converted@.len() == 0 ==> r.notifications@.last() is Failed && r.plan is None,
        r.converted@.len() > 0 ==> r.plan is Some,
        r.converted@.len() > 0 && r.notifications@.last() is Failed ==> is_late_failure(
            theme_name@,
            r.plan->Some_0,
            r.converted@,
            r.notifications@.last()@,
        ),
        r.notifications@.last() is Completed ==> {
            &&& r.notifications@.last() == Notification::Completed(r.converted@.len() as usize)
            &&& r.plan is Some
            &&& r.theme is Some
            &&& exists|
                cursors: Seq<ThemeCursor>,
                extracted: ExtractedTheme,
                dirs: Seq<ShapeDirectory>,
            |
                #![trigger
                    are_theme_cursors(r.plan->Some_0, r.converted@, cursors),
                    are_shape_directories(extracted, dirs),
                ]
                {
                    &&& are_theme_cursors(r.plan->Some_0, r.converted@, cursors)
                    &&& is_theme_extraction(
                        theme_name@,
                        cursors,
                        None,
                        Ok::<ExtractedTheme, CursorError>(extracted),
                    )
                    &&& are_shape_directories(extracted, dirs)
                    &&& is_theme_compilation(
                        Notation::Hl,
                        extracted.manifest@,
                        dirs,
                        Ok::<CompiledTheme, CursorError>(r.theme->Some_0),
                    )
                }
        },
        files@.len() > 0 ==> exists|
            options: ConversionOptions,
            outcomes: Seq<Result<ConvertedCursor, CursorError>>,
        |
            #![trigger are_outcomes(files@, options, true, outcomes, r.converted@)]
            {
                &&& options.scale is None
                &&& options.hotspot_overrides@ == Map::<u32, (u32, u32)>::empty()
                &&& options.target_sizes@ == target_sizes@
                &&& are_outcomes(files@, options, true, outcomes, r.converted@)
            },
        r.theme matches Some(theme) ==> forall|a: int, w: int|
            0 <= a < theme.packages@.len() && 0 <= w < theme.packages@[a].warnings@.len()
                ==> logged(r.notifications@, (#[trigger] theme.packages@[a].warnings@[w])@),
        r.plan matches Some(plan) ==> {
            &&& is_planned_theme(mapping, r.converted@, name_views(existing@), plan)
            &&& forall|i: int|
                0 <= i < plan.fallback_missing@.len() ==> logged(
                    r.notifications@,
                    missing_line((#[trigger] plan.fallback_missing@[i])@),
                )
        },
{
    let mut notes: Vec<Notification> = Vec::new();
    notify(&mut notes, Notification::Started);
    log(&mut notes, "Converting ANI files to X11 cursor format...".to_owned());
    if files.len() == 0 {
        return fail_run(notes, "No .ani or .cur files found".to_owned(), Vec::new(), None);
    }
    let options = ConversionOptions::new().with_target_sizes(target_sizes);
    let ghost head = notes@;
    let batch = convert_batch(files, &options, true, &mut notes);
    assert(notes@[0] == notes@.take(head.len() as int)[0]);
    let BatchOutcome { converted, processed, failed } = batch;
    let ghost outcomes = choose|outcomes: Seq<Result<ConvertedCursor, CursorError>>|
        #![trigger converted_among(outcomes, outcomes.len() as int)]
        is_batch(
            files@,
            options,
            true,
            outcomes,
            converted@,
            note_views(head),
            note_views(notes@),
        );
    assert(are_outcomes(files@, options, true, outcomes, converted@));
    if processed == 0 {
        return fail_run(notes, "Failed to convert any cursor files".to_owned(), converted, None);
    }
    let mut line = String::new();
    push_str(&mut line, "Converted ");
    push_decimal(&mut line, processed as u64);
    push_str(&mut line, "/");
    push_decimal(&mut line, files.len() as u64);
    push_str(&mut line, " cursor files");
    log(&mut notes, line);
    log(&mut notes, "Building XCursor theme with mapping...".to_owned());
    let stems = list_stems(&converted);
    let builder = XCursorThemeBuilder::new(theme_output.to_owned(), theme_name.to_owned(), mapping);
    let plan = builder.build_from_xcur_files(&stems, existing);
    let mut line = String::new();
    push_str(&mut line, "Created theme with ");
    push_decimal(&mut line, plan.copies.len() as u64);
    push_str(&mut line, " cursors and symlinks");
    log(&mut notes, line);
    let mut m: usize = 0;
    while m < plan.fallback_missing.len()
        invariant
            m <= plan.fallback_missing@.len(),
            notes@.len() >= 1,
            notes@[0] is Started,
            terminal_reports(notes@) == Seq::<Notification>::empty(),
            progress_reports(notes@) == counted_progress(
                files@.len() as int,
                files@.len() as usize,
            ),
            forall|i: int|
                0 <= i < m ==> logged(
                    notes@,
                    missing_line((#[trigger] plan.fallback_missing@[i])@),
                ),
        decreases plan.fallback_missing@.len() - m,
    {
        let mut line = String::new();
        push_str(&mut line, "Warning: Fallback missing for ");
        push_str(&mut line, plan.fallback_missing[m].as_str());
        log(&mut notes, line);
        m += 1;
    }
    log(&mut notes, "Generating Hyprcursor theme...".to_owned());
    log(&mut notes, "Extracting XCursor theme to working state...".to_owned());
    proof {
        lemma_planned_sources(
            builder.mapping.x11_to_win.names(),
            builder.mapping@.x11_to_win,
            name_views(stems@),
            name_views(existing@),
            builder.mapping.x11_to_win.names().len() as int,
        );
        assert forall|k: int| 0 <= k < plan.copies@.len() implies converted_stems(
            converted@,
        ).contains((#[trigger] plan.copies@[k]).source@) by {
            assert(copy_views(plan.copies@)[k].source == plan.copies@[k].source@);
        }
    }
    let cursors = theme_cursors(&plan, &converted);
    let extraction = extract_xcursor_theme(theme_name, &cursors, None);
    let extracted = match extraction {
        Ok(theme) => theme,
        Err(e) => {
            let report = fail_run(notes, e.message().to_owned(), converted, Some(plan));
            assert(are_theme_cursors(report.plan->Some_0, report.converted@, cursors@));
            assert(fails_in_extraction(theme_name@, report.plan->Some_0, report.converted@, e));
            assert(report.notifications@.last()@ == NoteView::Failed(e.spec_message()));
            assert(are_outcomes(files@, options, true, outcomes, report.converted@));
            return report;
        },
    };
    log(&mut notes, "Compiling Hyprcursor theme...".to_owned());
    let dirs = shape_directories(&extracted);
    let compilation = create_cursor_theme(Notation::Hl, extracted.manifest.as_str(), &dirs);
    let theme = match compilation {
        Ok(theme) => theme,
        Err(e) => {
            let report = fail_run(notes, e.message().to_owned(), converted, Some(plan));
            assert(are_theme_cursors(report.plan->Some_0, report.converted@, cursors@));
            assert(are_shape_directories(extracted, dirs@));
            assert(is_theme_extraction(
                theme_name@,
                cursors@,
                None,
                Ok::<ExtractedTheme, CursorError>(extracted),
            ));
            assert(fails_in_compilation(theme_name@, report.plan->Some_0, report.converted@, e));
            assert(report.notifications@.last()@ == NoteView::Failed(e.spec_message()));
            assert(are_outcomes(files@, options, true, outcomes, report.converted@));
            return report;
        },
    };
    assert(are_theme_cursors(plan, converted@, cursors@));
    assert(are_shape_directories(extracted, dirs@));
    let mut p: usize = 0;
    while p < theme.packages.len()
        invariant
            p <= theme.packages@.len(),
            notes@.len() >= 1,
            notes@[0] is Started,
            terminal_reports(notes@) == Seq::<Notification>::empty(),
            progress_reports(notes@) == counted_progress(
                files@.len() as int,
                files@.len() as usize,
            ),
            forall|i: int|
                0 <= i < plan.fallback_missing@.len() ==> logged(
                    notes@,
                    missing_line((#[trigger] plan.fallback_missing@[i])@),
                ),
            forall|a: int, w: int|
                0 <= a < p && 0 <= w < theme.packages@[a].warnings@.len() ==> logged(
                    notes@,
                    (#[trigger] theme.packages@[a].warnings@[w])@,
                ),
        decreases theme.packages@.len() - p,
    {
        log_all(&mut notes, &theme.packages[p].warnings);
        p += 1;
    }
    let mut line = String::new();
    push_str(&mut line, "Generated Hyprcursor files in ");
    push_str(&mut line, theme_output);
    log(&mut notes, line);
    notify(&mut notes, Notification::ArtifactPath(theme_output.to_owned()));
    notify(&mut notes, Notification::Completed(processed));
    assert(progress_reports(notes@) =~= counted_progress(
        files@.len() as int,
        files@.len() as usize,
    ));
    let report = FullThemeReport {
        notifications: notes,
        converted,
        plan: Some(plan),
        theme: Some(theme),
    };
    assert(are_theme_cursors(report.plan->Some_0, report.converted@, cursors@));
    assert(is_theme_extraction(
        theme_name@,
        cursors@,
        None,
        Ok::<ExtractedTheme, CursorError>(extracted),
    ));
    assert(is_theme_compilation(
        Notation::Hl,
        extracted.manifest@,
        dirs@,
        Ok::<CompiledTheme, CursorError>(report.theme->Some_0),
    ));
    assert(are_outcomes(files@, options, true, outcomes, report.converted@));
    report
}

} // verus!
