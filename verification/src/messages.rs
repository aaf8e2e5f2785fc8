//! Messages of the transcript: what the user wrote, what was attached to it,
//! files that were presented.
use crate::paths::{base_name, base_name_of};
use crate::prose::{lead_lines, led};
use crate::style::{
    Line, Piece, Span, Style, append_lines, blank_line, blank_row, colored, line1, line2, no_lines,
    piece, push_line, raw, rows, spaces, spaces_span, span, unstyled,
};
use crate::text::{
    blank, cat2, cat3, cat4, chars_of, decimal, decimal_string, ends_with_char, is_blank, join,
    joined, line_list, lines, no_texts, opt_str, push_text, same, starts, starts_with, string_of,
    texts, trim, trim_end, trim_start, trimmed, trimmed_end, trimmed_start,
};
use crate::theme::{accent, faint, ink, muted};
use crate::vault::pair_texts;
use crate::wrap::{wrap_one, wrapped};
use vstd::prelude::*;

verus! {

// ---------------------------------------------------------------------------
// Attachment markers
// ---------------------------------------------------------------------------

pub open spec fn image_marker(line: Seq<char>) -> bool {
    let t = trimmed_start(line);
    starts(t, "[attached image —"@) && t.len() > 0 && t.last() == ']'
}

pub open spec fn file_marker(line: Seq<char>) -> bool {
    let t = trimmed_start(line);
    starts(t, "[attached file —"@) && t.len() > 0 && t.last() == ']'
}

/// A line that is there for the agent only.
pub open spec fn attachment_marker(line: Seq<char>) -> bool {
    image_marker(line) || file_marker(line)
}

/// The text without the lines that name attachments, and without white space at
/// its end.
pub open spec fn without_markers(text: Seq<char>) -> Seq<char> {
    trimmed_end(joined(line_list(text).filter(|l: Seq<char>| !attachment_marker(l)), "\n"@))
}

fn is_image_marker(line: &str) -> (r: bool)
    ensures
        r == image_marker(line@),
{
    let t = trim_start(line);
    starts_with(t.as_str(), "[attached image —") && ends_with_char(t.as_str(), ']')
}

fn is_file_marker(line: &str) -> (r: bool)
    ensures
        r == file_marker(line@),
{
    let t = trim_start(line);
    starts_with(t.as_str(), "[attached file —") && ends_with_char(t.as_str(), ']')
}

/// Hides the lines that name attachments.
pub fn strip_attachment_markers(text: &str) -> (r: String)
    ensures
        r@ == without_markers(text@),
{
    let list = lines(text);
    let ghost all = texts(list@);
    let ghost p = |l: Seq<char>| !attachment_marker(l);
    let mut kept = no_texts();
    proof {
        all.take(0).lemma_filter_len(p);
        assert(texts(kept@) =~= all.take(0).filter(p));
    }
    for i in 0..list.len()
        invariant
            all == texts(list@),
            p == (|l: Seq<char>| !attachment_marker(l)),
            texts(kept@) == all.take(i as int).filter(p),
    {
        proof {
            all.take(i as int).lemma_filter_push(all[i as int], p);
            assert(all.take(i + 1) =~= all.take(i as int).push(all[i as int]));
            assert(all[i as int] == list@[i as int]@);
        }
        if !(is_image_marker(list[i].as_str()) || is_file_marker(list[i].as_str())) {
            push_text(&mut kept, list[i].clone());
        }
    }
    assert(all.take(all.len() as int) =~= all);
    let text = join(&kept, "\n");
    trim_end(text.as_str())
}

/// How many images and how many other files are attached.
pub open spec fn attachments(text: Seq<char>) -> (nat, nat) {
    (
        line_list(text).filter(|l: Seq<char>| image_marker(l)).len(),
        line_list(text).filter(|l: Seq<char>| !image_marker(l) && file_marker(l)).len(),
    )
}

pub fn count_attachments(text: &str) -> (r: (usize, usize))
    ensures
        (r.0 as nat, r.1 as nat) == attachments(text@),
        r.0 + r.1 <= usize::MAX,
{
    let list = lines(text);
    let ghost all = texts(list@);
    let ghost p = |l: Seq<char>| image_marker(l);
    let ghost q = |l: Seq<char>| !image_marker(l) && file_marker(l);
    let mut images: usize = 0;
    let mut files: usize = 0;
    proof {
        all.take(0).lemma_filter_len(p);
        all.take(0).lemma_filter_len(q);
    }
    for i in 0..list.len()
        invariant
            all == texts(list@),
            p == (|l: Seq<char>| image_marker(l)),
            q == (|l: Seq<char>| !image_marker(l) && file_marker(l)),
            images + files <= i,
            images == all.take(i as int).filter(p).len(),
            files == all.take(i as int).filter(q).len(),
    {
        proof {
            all.take(i as int).lemma_filter_push(all[i as int], p);
            all.take(i as int).lemma_filter_push(all[i as int], q);
            assert(all.take(i + 1) =~= all.take(i as int).push(all[i as int]));
            assert(all[i as int] == list@[i as int]@);
        }
        if is_image_marker(list[i].as_str()) {
            images += 1;
        } else if is_file_marker(list[i].as_str()) {
            files += 1;
        }
    }
    assert(all.take(all.len() as int) =~= all);
    (images, files)
}

/// A count with its noun, in the plural but for one.
pub open spec fn counted_noun(n: nat, noun: Seq<char>) -> Seq<char> {
    decimal(n) + " "@ + noun + if n == 1 {
        Seq::empty()
    } else {
        "s"@
    }
}

pub open spec fn summary_parts(images: nat, files: nat) -> Seq<Seq<char>> {
    (if images > 0 {
        seq![counted_noun(images, "image"@)]
    } else {
        Seq::empty()
    }) + if files > 0 {
        seq![counted_noun(files, "file"@)]
    } else {
        Seq::empty()
    }
}

pub open spec fn summary(images: nat, files: nat) -> Seq<char> {
    "📎 "@ + joined(summary_parts(images, files), " · "@)
}

fn count_noun(n: usize, noun: &str) -> (r: String)
    ensures
        r@ == counted_noun(n as nat, noun@),
{
    let d = decimal_string(n as u64);
    if n == 1 {
        let s = cat3(d.as_str(), " ", noun);
        assert(s@ =~= counted_noun(n as nat, noun@));
        s
    } else {
        cat4(d.as_str(), " ", noun, "s")
    }
}

/// Such as `📎 2 images · 1 file`.
pub fn attachment_summary(images: usize, files: usize) -> (r: String)
    ensures
        r@ == summary(images as nat, files as nat),
{
    let mut parts = no_texts();
    if images > 0 {
        push_text(&mut parts, count_noun(images, "image"));
    }
    if files > 0 {
        push_text(&mut parts, count_noun(files, "file"));
    }
    assert(texts(parts@) =~= summary_parts(images as nat, files as nat));
    let list = join(&parts, " · ");
    cat2("📎 ", list.as_str())
}

// ---------------------------------------------------------------------------
// Transcripts of recordings
// ---------------------------------------------------------------------------

/// What stands between the prefix and a closing bracket, without the white space
/// around it.
pub open spec fn bracketed(line: Seq<char>, prefix: Seq<char>) -> Option<Seq<char>> {
    let t = trimmed_start(line);
    if starts(t, prefix) && t.len() > prefix.len() && t.last() == ']' {
        Some(trimmed(t.subrange(prefix.len() as int, t.len() - 1)))
    } else {
        None
    }
}

/// A line at which a transcript ends.
pub open spec fn section_begins(line: Seq<char>) -> bool {
    let t = trimmed_start(line);
    ||| starts(t, "[Audio transcript for "@)
    ||| starts(t, "[Audio transcription unavailable: "@)
    ||| attachment_marker(line)
}

/// The first line from `i` on at which a section begins, or the end.
pub open spec fn section_end(lines: Seq<Seq<char>>, i: int) -> int
    decreases lines.len() - i,
{
    if 0 <= i < lines.len() && !section_begins(lines[i]) {
        section_end(lines, i + 1)
    } else {
        i
    }
}

/// The lines one below the other, without empty ones at the front.
pub open spec fn stacked(lines: Seq<Seq<char>>) -> Seq<char>
    decreases lines.len(),
{
    if lines.len() == 0 {
        Seq::empty()
    } else {
        let before = stacked(lines.drop_last());
        if before.len() > 0 {
            before + "\n"@ + lines.last()
        } else {
            lines.last()
        }
    }
}

/// Prose, and the transcripts that are set apart from it by name.
pub ghost struct Sections {
    pub prose: Seq<char>,
    pub audio: Seq<(Seq<char>, Seq<char>)>,
}

pub open spec fn sections_from(lines: Seq<Seq<char>>, i: int, s: Sections) -> Sections
    decreases lines.len() - i,
{
    if i < 0 || i >= lines.len() {
        Sections { prose: trimmed_end(s.prose), ..s }
    } else {
        let line = lines[i];
        match bracketed(line, "[Audio transcript for "@) {
            Some(path) => {
                let end = section_end(lines, i + 1);
                let body = trimmed(stacked(lines.subrange(i + 1, end)));
                if i < end <= lines.len() {
                    sections_from(
                        lines,
                        end,
                        Sections { audio: s.audio.push((base_name(path), body)), ..s },
                    )
                } else {
                    s
                }
            },
            None => match bracketed(line, "[Audio transcription unavailable: "@) {
                Some(err) => sections_from(
                    lines,
                    i + 1,
                    Sections {
                        audio: s.audio.push(
                            ("voice"@, "(transcription unavailable: "@ + err + ")"@),
                        ),
                        ..s
                    },
                ),
                None => sections_from(
                    lines,
                    i + 1,
                    Sections {
                        prose: if s.prose.len() > 0 {
                            s.prose + "\n"@ + line
                        } else {
                            line
                        },
                        ..s
                    },
                ),
            },
        }
    }
}

/// The prose of a message and the transcripts of its recordings.
pub open spec fn sections(text: Seq<char>) -> Sections {
    sections_from(
        line_list(text),
        0,
        Sections { prose: Seq::empty(), audio: Seq::empty() },
    )
}

fn between_brackets(line: &str, prefix: &str) -> (r: Option<String>)
    ensures
        bracketed(line@, prefix@) == match r {
            Some(s) => Some(s@),
            None => None,
        },
{
    let t = trim_start(line);
    let v = chars_of(t.as_str());
    let n = chars_of(prefix).len();
    if starts_with(t.as_str(), prefix) && v.len() > n && v[v.len() - 1] == ']' {
        let inner = string_of(&v, n, v.len() - 1);
        Some(trim(inner.as_str()))
    } else {
        None
    }
}

fn begins_section(line: &str) -> (r: bool)
    ensures
        r == section_begins(line@),
{
    let t = trim_start(line);
    starts_with(t.as_str(), "[Audio transcript for ") || starts_with(
        t.as_str(),
        "[Audio transcription unavailable: ",
    ) || is_image_marker(line) || is_file_marker(line)
}

/// The lines of a transcript that begins at `i`, and where it ends.
fn read_section(lines: &Vec<String>, i: usize) -> (r: (String, usize))
    requires
        i <= lines.len(),
    ensures
        r.1 == section_end(texts(lines@), i as int),
        i <= r.1 <= lines.len(),
        r.0@ == stacked(texts(lines@).subrange(i as int, r.1 as int)),
{
    let ghost all = texts(lines@);
    let mut body = String::new();
    let mut j: usize = i;
    assert(all.subrange(i as int, i as int) =~= Seq::empty());
    assert(body@ =~= stacked(all.subrange(i as int, i as int)));
    while j < lines.len() && !begins_section(lines[j].as_str())
        invariant
            all == texts(lines@),
            i <= j <= lines.len(),
            section_end(all, i as int) == section_end(all, j as int),
            body@ == stacked(all.subrange(i as int, j as int)),
        decreases lines.len() - j,
    {
        proof {
            let next = all.subrange(i as int, j + 1);
            assert(next.drop_last() =~= all.subrange(i as int, j as int));
            assert(next.last() == lines@[j as int]@);
            assert(all[j as int] == lines@[j as int]@);
        }
        if body.as_str().is_empty() {
            body = lines[j].clone();
        } else {
            body = cat3(body.as_str(), "\n", lines[j].as_str());
        }
        j += 1;
    }
    proof {
        if j < lines.len() {
            assert(all[j as int] == lines@[j as int]@);
        }
    }
    (body, j)
}

/// Splits a message into its prose and the transcripts of its recordings.
pub fn split_audio_sections(text: &str) -> (r: (String, Vec<(String, String)>))
    ensures
        sections(text@) == (Sections { prose: r.0@, audio: pair_texts(r.1@) }),
{
    let list = lines(text);
    let ghost all = texts(list@);
    let ghost goal = sections(text@);
    let mut prose = String::new();
    let mut audio: Vec<(String, String)> = Vec::new();
    let mut i: usize = 0;
    assert(prose@ =~= Seq::<char>::empty());
    assert(pair_texts(audio@) =~= Seq::empty());
    while i < list.len()
        invariant
            all == texts(list@),
            i <= list.len(),
            goal == sections_from(
                all,
                i as int,
                Sections { prose: prose@, audio: pair_texts(audio@) },
            ),
        decreases list.len() - i,
    {
        assert(all[i as int] == list@[i as int]@);
        let line = list[i].as_str();
        let ghost before = pair_texts(audio@);
        match between_brackets(line, "[Audio transcript for ") {
            Some(path) => {
                let (body, end) = read_section(&list, i + 1);
                let name = base_name_of(path.as_str());
                let text = trim(body.as_str());
                let ghost item = (name@, text@);
                audio.push((name, text));
                assert(pair_texts(audio@) =~= before.push(item));
                i = end;
            },
            None => {
                match between_brackets(line, "[Audio transcription unavailable: ") {
                    Some(err) => {
                        let note = cat3("(transcription unavailable: ", err.as_str(), ")");
                        let ghost item = ("voice"@, note@);
                        audio.push(("voice".to_string(), note));
                        assert(pair_texts(audio@) =~= before.push(item));
                    },
                    None => {
                        if prose.as_str().is_empty() {
                            prose = line.to_owned();
                        } else {
                            prose = cat3(prose.as_str(), "\n", line);
                        }
                    },
                }
                i += 1;
            },
        }
    }
    (trim_end(prose.as_str()), audio)
}

// ---------------------------------------------------------------------------
// Lines
// ---------------------------------------------------------------------------

/// A line with an empty span in front, which keeps it in the content column.
pub open spec fn in_column(p: Piece) -> Seq<Piece> {
    seq![raw(Seq::empty()), p]
}

pub open spec fn column_rows(list: Seq<Seq<char>>, style: Style) -> Seq<Seq<Piece>> {
    list.map_values(|s: Seq<char>| in_column(piece(s, style)))
}

/// Wrapped text, nothing where the text is blank.
pub open spec fn wrapped_rows(text: Seq<char>, width: nat, style: Style) -> Seq<Seq<Piece>> {
    if blank(text) {
        Seq::empty()
    } else {
        column_rows(wrapped(text, width), style)
    }
}

fn column_line(text: &str, style: Style) -> (r: Line)
    ensures
        r@ == in_column(piece(text@, style)),
{
    let lead = Span { text: String::new(), style: unstyled() };
    assert(lead@.text =~= Seq::<char>::empty());
    line2(lead, span(text, style))
}

fn push_column(lines: &mut Vec<Line>, list: &Vec<String>, style: Style)
    ensures
        rows(final(lines)@) == rows(old(lines)@) + column_rows(texts(list@), style),
{
    let ghost before = rows(lines@);
    let ghost all = column_rows(texts(list@), style);
    assert(before + all.take(0) =~= before);
    for i in 0..list.len()
        invariant
            all == column_rows(texts(list@), style),
            rows(lines@) == before + all.take(i as int),
    {
        push_line(lines, column_line(list[i].as_str(), style));
        assert(all[i as int] == in_column(piece(list@[i as int]@, style)));
        assert(before + all.take(i + 1) =~= (before + all.take(i as int)).push(all[i as int]));
    }
    assert(all.take(all.len() as int) =~= all);
}

pub fn push_wrapped(lines: &mut Vec<Line>, text: &str, width: usize, style: Style)
    ensures
        rows(final(lines)@) == rows(old(lines)@) + wrapped_rows(text@, width as nat, style),
{
    let ghost before = rows(lines@);
    if is_blank(text) {
        assert(before + Seq::empty() =~= before);
        return;
    }
    push_column(lines, &wrap_one(text, width), style);
}

/// The transcript of a recording below its name.
pub open spec fn audio_rows(name: Seq<char>, body: Seq<char>, width: nat) -> Seq<Seq<Piece>> {
    seq![in_column(piece("voice · "@ + name, colored(muted()).slanted()))] + if blank(body) {
        seq![in_column(piece("(no speech detected)"@, colored(faint())))]
    } else {
        column_rows(wrapped(body, width), colored(ink()))
    }
}

pub fn audio_block_lines(name: &str, body: &str, width: usize) -> (r: Vec<Line>)
    ensures
        rows(r@) == audio_rows(name@, body@, width as nat),
{
    let mut out = no_lines();
    let label = cat2("voice · ", name);
    push_line(&mut out, column_line(label.as_str(), colored(muted()).slanted()));
    if is_blank(body) {
        push_line(&mut out, column_line("(no speech detected)", colored(faint())));
    } else {
        push_column(&mut out, &wrap_one(body, width), colored(ink()));
    }
    assert(rows(out@) =~= audio_rows(name@, body@, width as nat));
    out
}

/// Transcripts below each other, each after a blank line where more than
/// `least` lines are above it.
pub open spec fn with_audio(
    lines: Seq<Seq<Piece>>,
    audio: Seq<(Seq<char>, Seq<char>)>,
    width: nat,
    least: nat,
) -> Seq<Seq<Piece>>
    decreases audio.len(),
{
    if audio.len() == 0 {
        lines
    } else {
        let before = with_audio(lines, audio.drop_last(), width, least);
        let gap = if before.len() > least {
            before.push(blank_row())
        } else {
            before
        };
        gap + audio_rows(audio.last().0, audio.last().1, width)
    }
}

fn push_audio(lines: &mut Vec<Line>, audio: &Vec<(String, String)>, width: usize, least: usize)
    ensures
        rows(final(lines)@) == with_audio(
            rows(old(lines)@),
            pair_texts(audio@),
            width as nat,
            least as nat,
        ),
{
    let ghost before = rows(lines@);
    let ghost all = pair_texts(audio@);
    for i in 0..audio.len()
        invariant
            all == pair_texts(audio@),
            rows(lines@) == with_audio(before, all.take(i as int), width as nat, least as nat),
    {
        proof {
            assert(all.take(i + 1).drop_last() =~= all.take(i as int));
            assert(all.take(i + 1).last() == (audio@[i as int].0@, audio@[i as int].1@));
            assert(rows(lines@).len() == lines@.len());
        }
        if lines.len() > least {
            push_line(lines, blank_line());
        }
        append_lines(
            lines,
            audio_block_lines(audio[i].0.as_str(), audio[i].1.as_str(), width),
        );
    }
    assert(all.take(all.len() as int) =~= all);
}

/// The line that says what is attached, where anything is.
pub open spec fn attachment_rows(text: Seq<char>) -> Seq<Seq<Piece>> {
    let (images, files) = attachments(text);
    if images + files > 0 {
        seq![in_column(piece(summary(images, files), colored(muted())))]
    } else {
        Seq::empty()
    }
}

fn push_attachments(lines: &mut Vec<Line>, text: &str)
    ensures
        rows(final(lines)@) == rows(old(lines)@) + attachment_rows(text@),
{
    let ghost before = rows(lines@);
    let (images, files) = count_attachments(text);
    if images + files > 0 {
        let s = attachment_summary(images, files);
        push_line(lines, column_line(s.as_str(), colored(muted())));
        assert(rows(lines@) =~= before + attachment_rows(text@));
    } else {
        assert(before + Seq::empty() =~= before);
    }
}

/// What the user wrote, in bold; transcripts; what is attached. There is at
/// least one line.
pub open spec fn user_rows(text: Seq<char>, width: nat) -> Seq<Seq<Piece>> {
    let s = sections(without_markers(text));
    let all = with_audio(
        wrapped_rows(s.prose, width, colored(ink()).bolded()),
        s.audio,
        width,
        0,
    ) + attachment_rows(text);
    if all.len() == 0 {
        seq![seq![raw(Seq::empty())]]
    } else {
        all
    }
}

pub fn user_lines(text: &str, width: usize) -> (r: Vec<Line>)
    ensures
        rows(r@) == user_rows(text@, width as nat),
{
    let cleaned = strip_attachment_markers(text);
    let (prose, audio) = split_audio_sections(cleaned.as_str());
    let mut out = no_lines();
    push_wrapped(&mut out, prose.as_str(), width, colored(ink()).bolded());
    assert(rows(out@) =~= wrapped_rows(prose@, width as nat, colored(ink()).bolded()));
    push_audio(&mut out, &audio, width, 0);
    push_attachments(&mut out, text);
    assert(rows(out@).len() == out@.len());
    if out.len() == 0 {
        let lead = Span { text: String::new(), style: unstyled() };
        assert(lead@.text =~= Seq::<char>::empty());
        push_line(&mut out, line1(lead));
        assert(rows(out@) =~= seq![seq![raw(Seq::empty())]]);
    }
    out
}

/// What the user wrote during a run, below a quiet label.
pub open spec fn steer_rows(text: Seq<char>, width: nat) -> Seq<Seq<Piece>> {
    let s = sections(without_markers(text));
    with_audio(
        seq![in_column(piece("steer"@, colored(muted()).slanted()))] + wrapped_rows(
            s.prose,
            width,
            colored(ink()),
        ),
        s.audio,
        width,
        1,
    ) + attachment_rows(text)
}

pub fn steer_lines(text: &str, width: usize) -> (r: Vec<Line>)
    ensures
        rows(r@) == steer_rows(text@, width as nat),
{
    let cleaned = strip_attachment_markers(text);
    let (prose, audio) = split_audio_sections(cleaned.as_str());
    let mut out = no_lines();
    push_line(&mut out, column_line("steer", colored(muted()).slanted()));
    assert(rows(out@) =~= seq![in_column(piece("steer"@, colored(muted()).slanted()))]);
    push_wrapped(&mut out, prose.as_str(), width, colored(ink()));
    push_audio(&mut out, &audio, width, 1);
    push_attachments(&mut out, text);
    out
}

/// The title of a presented file: the first line in bold.
pub open spec fn title_rows(list: Seq<Seq<char>>) -> Seq<Seq<Piece>> {
    Seq::new(
        list.len(),
        |i: int|
            in_column(
                piece(
                    list[i],
                    if i == 0 {
                        colored(accent()).bolded()
                    } else {
                        colored(accent())
                    },
                ),
            ),
    )
}

/// A presented file: its name, its path where that says more, its caption.
pub open spec fn file_rows(path: Seq<char>, caption: Option<Seq<char>>, width: nat) -> Seq<
    Seq<Piece>,
> {
    let name = base_name(path);
    title_rows(wrapped("file  "@ + name, width)) + (if name != path {
        wrapped_rows(path, width, colored(faint()))
    } else {
        Seq::empty()
    }) + match caption {
        Some(c) => wrapped_rows(trimmed(c), width, colored(muted())),
        None => Seq::empty(),
    }
}

fn title_lines(list: &Vec<String>) -> (r: Vec<Line>)
    ensures
        rows(r@) == title_rows(texts(list@)),
{
    let mut out = no_lines();
    let ghost goal = title_rows(texts(list@));
    for i in 0..list.len()
        invariant
            goal == title_rows(texts(list@)),
            rows(out@).len() == i,
            forall|k: int| 0 <= k < i ==> #[trigger] rows(out@)[k] == goal[k],
    {
        let style = if i == 0 {
            colored(accent()).bolded()
        } else {
            colored(accent())
        };
        push_line(&mut out, column_line(list[i].as_str(), style));
    }
    assert(rows(out@) =~= goal);
    out
}

pub fn present_file_lines(path: &str, caption: Option<&str>, width: usize) -> (r: Vec<Line>)
    ensures
        rows(r@) == file_rows(path@, opt_str(caption), width as nat),
{
    let name = base_name_of(path);
    let title = cat2("file  ", name.as_str());
    let mut out = title_lines(&wrap_one(title.as_str(), width));
    if !same(name.as_str(), path) {
        push_wrapped(&mut out, path, width, colored(faint()));
    }
    match caption {
        Some(c) => {
            let t = trim(c);
            push_wrapped(&mut out, t.as_str(), width, colored(muted()));
        },
        None => {},
    }
    assert(rows(out@) =~= file_rows(path@, opt_str(caption), width as nat));
    out
}

// ---------------------------------------------------------------------------
// The column of the speaker
// ---------------------------------------------------------------------------

/// The columns that the mark of the speaker takes.
pub const TAG_W: usize = 2;

/// The mark that opens a turn.
pub open spec fn tag(agent: bool) -> Piece {
    if agent {
        piece("✦ "@, colored(accent()))
    } else {
        piece("> "@, colored(ink()).bolded())
    }
}

fn tag_span(agent: bool) -> (r: Span)
    ensures
        r@ == tag(agent),
{
    if agent {
        span("✦ ", colored(accent()))
    } else {
        span("> ", colored(ink()).bolded())
    }
}

/// The lines in the content column, the first with the mark of the speaker
/// where that is pending.
pub open spec fn tagged(list: Seq<Seq<Piece>>, agent: bool, pending: bool) -> Seq<Seq<Piece>> {
    led(
        list,
        if pending {
            tag(agent)
        } else {
            raw(spaces(2))
        },
        raw(spaces(2)),
    )
}

/// Adds lines in the content column. The mark stays pending only where there is
/// no line to carry it.
pub fn push_tagged(lines: &mut Vec<Line>, inner: &Vec<Line>, agent: bool, pending: bool) -> (r: bool)
    ensures
        rows(final(lines)@) == rows(old(lines)@) + tagged(rows(inner@), agent, pending),
        r == (pending && inner@.len() == 0),
{
    let first = if pending {
        tag_span(agent)
    } else {
        spaces_span(2)
    };
    append_lines(lines, lead_lines(inner, &first, &spaces_span(2)));
    pending && inner.len() == 0
}

} // verus!
