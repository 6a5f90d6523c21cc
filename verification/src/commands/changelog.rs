//! The changelog as text: where the line of a closed issue goes.

use vstd::prelude::*;
use vstd::string::*;

use crate::text::{chars_of, contains_chars, contains_text, text_eq, texts_view};

verus! {

/// The text `s` without the white space at its beginning and end, as Unicode
/// defines white space.
pub uninterp spec fn trimmed_of(s: Seq<char>) -> Seq<char>;

/// Takes the white space off both ends of `s` with `str::trim`. The claim is
/// only that the outcome is a function of the text: `trimmed_of`.
#[verifier::external_body]
fn trimmed(s: &str) -> (r: &str)
    ensures
        r@ == trimmed_of(s@),
{
    s.trim()
}

/// How many characters stand before the first line feed of `s`; the length
/// of `s` where it has none.
pub open spec fn line_length(s: Seq<char>) -> int
    decreases s.len(),
{
    if s.len() == 0 || s[0] == '\n' {
        0
    } else {
        1 + line_length(s.drop_first())
    }
}

/// The lines of `s`: split at each line feed, a carriage return before the
/// line feed taken off, and no empty line after a line feed that ends the
/// text.
pub open spec fn lines_of(s: Seq<char>) -> Seq<Seq<char>>
    decreases s.len(),
{
    if s.len() == 0 {
        Seq::empty()
    } else {
        let n = line_length(s);
        if 0 <= n < s.len() {
            let raw = s.subrange(0, n);
            let line = if n > 0 && raw[n - 1] == '\r' {
                raw.subrange(0, n - 1)
            } else {
                raw
            };
            seq![line] + lines_of(s.subrange(n + 1, s.len() as int))
        } else {
            seq![s]
        }
    }
}

/// The length of a line lies within the text, and a line feed ends it where
/// it is shorter than the text.
pub proof fn lemma_line_length(s: Seq<char>)
    ensures
        0 <= line_length(s) <= s.len(),
        line_length(s) < s.len() ==> s[line_length(s)] == '\n',
        forall|k: int| 0 <= k < line_length(s) ==> s[k] != '\n',
    decreases s.len(),
{
    if s.len() > 0 && s[0] != '\n' {
        let t = s.drop_first();
        lemma_line_length(t);
        assert forall|k: int| 0 <= k < line_length(s) implies s[k] != '\n' by {
            if k > 0 {
                assert(t[k - 1] == s[k]);
            }
        }
        if line_length(s) < s.len() {
            assert(t[line_length(t)] == s[line_length(s)]);
        }
    }
}

/// The first line ends at the first line feed.
proof fn lemma_line_ends_at(s: Seq<char>, n: int)
    requires
        0 <= n <= s.len(),
        forall|k: int| 0 <= k < n ==> s[k] != '\n',
        n < s.len() ==> s[n] == '\n',
    ensures
        line_length(s) == n,
    decreases s.len(),
{
    if s.len() > 0 && n > 0 {
        let t = s.drop_first();
        assert(s[0] != '\n');
        assert forall|k: int| 0 <= k < n - 1 implies t[k] != '\n' by {
            assert(t[k] == s[k + 1]);
        }
        if n - 1 < t.len() {
            assert(t[n - 1] == s[n]);
        }
        lemma_line_ends_at(t, n - 1);
    }
}

/// The lines of `content`.
pub fn split_lines(content: &str) -> (lines: Vec<String>)
    ensures
        texts_view(lines@) == lines_of(content@),
{
    let chars = chars_of(content);
    let total: usize = chars.len();
    let ghost s = content@;
    let mut lines: Vec<String> = Vec::new();
    let mut pos: usize = 0;
    assert(s.skip(0) =~= s);
    while pos < total
        invariant
            pos <= total == chars@.len(),
            chars@ == content@,
            s == content@,
            lines_of(s) == texts_view(lines@) + lines_of(s.skip(pos as int)),
        decreases total - pos,
    {
        let ghost rest = s.skip(pos as int);
        let mut end: usize = pos;
        while end < total && chars[end] != '\n'
            invariant
                pos <= end <= total == chars@.len(),
                chars@ == s,
                rest == s.skip(pos as int),
                forall|k: int| 0 <= k < end - pos ==> rest[k] != '\n',
            decreases total - end,
        {
            end += 1;
        }
        proof {
            lemma_line_ends_at(rest, end - pos);
        }
        let ghost before = texts_view(lines@);
        if end < total {
            let stop: usize = if end > pos && chars[end - 1] == '\r' {
                (end - 1) as usize
            } else {
                end
            };
            let line = content.substring_char(pos, stop);
            let owned = line.to_owned();
            lines.push(owned);
            proof {
                let n = end - pos;
                let raw = rest.subrange(0, n);
                assert(rest.subrange(n + 1, rest.len() as int) =~= s.skip(end + 1));
                assert(s.subrange(pos as int, stop as int) =~= if n > 0 && raw[n - 1] == '\r' {
                    raw.subrange(0, n - 1)
                } else {
                    raw
                });
                assert(texts_view(lines@) =~= before.push(s.subrange(pos as int, stop as int)));
                assert(lines_of(rest) == seq![s.subrange(pos as int, stop as int)] + lines_of(
                    s.skip(end + 1),
                ));
                assert(before + (seq![s.subrange(pos as int, stop as int)] + lines_of(
                    s.skip(end + 1),
                )) =~= before.push(s.subrange(pos as int, stop as int)) + lines_of(
                    s.skip(end + 1),
                ));
            }
            pos = end + 1;
        } else {
            let line = content.substring_char(pos, total);
            let owned = line.to_owned();
            lines.push(owned);
            proof {
                assert(s.subrange(pos as int, total as int) =~= rest);
                assert(texts_view(lines@) =~= before.push(rest));
                assert(s.skip(total as int) =~= Seq::<char>::empty());
                assert(before + seq![rest] =~= before.push(rest) + lines_of(s.skip(total as int)));
            }
            pos = total;
        }
    }
    assert(texts_view(lines@) + lines_of(s.skip(pos as int)) =~= texts_view(lines@));
    lines
}

/// Whether `line` begins a section of the second level.
pub open spec fn is_section(line: Seq<char>) -> bool {
    line.len() >= 3 && line[0] == '#' && line[1] == '#' && line[2] == ' '
}

/// The lines with a line feed after each, and `entry` after the first line
/// that, without the white space at its ends, is `heading`.
pub open spec fn entry_under(
    lines: Seq<Seq<char>>,
    heading: Seq<char>,
    entry: Seq<char>,
    found: bool,
) -> Seq<char>
    decreases lines.len(),
{
    if lines.len() == 0 {
        Seq::empty()
    } else {
        let hit = !found && trimmed_of(lines[0]) == heading;
        lines[0] + seq!['\n'] + (if hit {
            entry
        } else {
            Seq::empty()
        }) + entry_under(lines.drop_first(), heading, entry, found || hit)
    }
}

/// The section that a heading opens: an empty line, the heading, and the
/// entry.
pub open spec fn new_section(heading: Seq<char>, entry: Seq<char>) -> Seq<char> {
    seq!['\n'] + heading + seq!['\n'] + entry
}

/// The lines with a line feed after each, and a new section after the first
/// line that begins a section of the second level, or at the end where no
/// line does.
pub open spec fn section_added(
    lines: Seq<Seq<char>>,
    heading: Seq<char>,
    entry: Seq<char>,
    added: bool,
) -> Seq<char>
    decreases lines.len(),
{
    if lines.len() == 0 {
        if added {
            Seq::empty()
        } else {
            new_section(heading, entry)
        }
    } else {
        let hit = !added && is_section(lines[0]);
        lines[0] + seq!['\n'] + (if hit {
            new_section(heading, entry)
        } else {
            Seq::empty()
        }) + section_added(lines.drop_first(), heading, entry, added || hit)
    }
}

/// The heading of a category.
pub open spec fn heading_text(category: Seq<char>) -> Seq<char> {
    "### "@ + category
}

/// The changelog `content` with `entry` under the heading of `category`:
/// after the heading where the changelog has it, and otherwise in a new
/// section after the first heading of the second level, or at the end.
pub open spec fn changelog_with(content: Seq<char>, category: Seq<char>, entry: Seq<char>) -> Seq<
    char,
> {
    let heading = heading_text(category);
    if contains_text(content, heading) {
        entry_under(lines_of(content), heading, entry, false)
    } else {
        section_added(lines_of(content), heading, entry, false)
    }
}

fn begins_section(line: &str) -> (r: bool)
    ensures
        r == is_section(line@),
{
    let c = chars_of(line);
    c.len() >= 3 && c[0] == '#' && c[1] == '#' && c[2] == ' '
}

/// The changelog `content` with `entry` under the heading of `category`.
pub fn append_to_changelog(content: &str, category: &str, entry: &str) -> (r: String)
    ensures
        r@ == changelog_with(content@, category@, entry@),
{
    let mut heading = "### ".to_owned();
    heading.append(category);
    let has_heading = contains_chars(&chars_of(content), &chars_of(heading.as_str()));
    let lines = split_lines(content);
    let ghost all = texts_view(lines@);
    proof {
        reveal_strlit("\n");
    }
    let mut out = String::new();
    let mut done = false;
    let mut i: usize = 0;
    assert(all.skip(0) =~= all);
    if has_heading {
        while i < lines.len()
            invariant
                i <= lines@.len(),
                all == texts_view(lines@),
                "\n"@ == seq!['\n'],
                entry_under(all, heading@, entry@, false) == out@ + entry_under(
                    all.skip(i as int),
                    heading@,
                    entry@,
                    done,
                ),
            decreases lines@.len() - i,
        {
            let line = lines[i].as_str();
            let ghost before = out@;
            let ghost rest = all.skip(i as int);
            assert(rest[0] == line@);
            assert(rest.drop_first() =~= all.skip(i + 1));
            out.append(line);
            out.append("\n");
            let hit = !done && text_eq(trimmed(line), heading.as_str());
            if hit {
                out.append(entry);
                done = true;
            }
            proof {
                let piece = line@ + seq!['\n'] + (if hit {
                    entry@
                } else {
                    Seq::empty()
                });
                assert(out@ =~= before + piece);
                assert(before + (piece + entry_under(all.skip(i + 1), heading@, entry@, done))
                    =~= (before + piece) + entry_under(all.skip(i + 1), heading@, entry@, done));
            }
            i += 1;
        }
        assert(out@ + Seq::<char>::empty() =~= out@);
    } else {
        while i < lines.len()
            invariant
                i <= lines@.len(),
                all == texts_view(lines@),
                "\n"@ == seq!['\n'],
                section_added(all, heading@, entry@, false) == out@ + section_added(
                    all.skip(i as int),
                    heading@,
                    entry@,
                    done,
                ),
            decreases lines@.len() - i,
        {
            let line = lines[i].as_str();
            let ghost before = out@;
            let ghost rest = all.skip(i as int);
            assert(rest[0] == line@);
            assert(rest.drop_first() =~= all.skip(i + 1));
            out.append(line);
            out.append("\n");
            let hit = !done && begins_section(line);
            if hit {
                out.append("\n");
                out.append(heading.as_str());
                out.append("\n");
                out.append(entry);
                done = true;
            }
            proof {
                let piece = line@ + seq!['\n'] + (if hit {
                    new_section(heading@, entry@)
                } else {
                    Seq::empty()
                });
                assert(out@ =~= before + piece);
                assert(before + (piece + section_added(all.skip(i + 1), heading@, entry@, done))
                    =~= (before + piece) + section_added(all.skip(i + 1), heading@, entry@, done));
            }
            i += 1;
        }
        let ghost before = out@;
        if !done {
            out.append("\n");
            out.append(heading.as_str());
            out.append("\n");
            out.append(entry);
            assert(out@ =~= before + new_section(heading@, entry@));
        } else {
            assert(out@ + Seq::<char>::empty() =~= out@);
        }
    }
    out
}

/// The changelog that is written where there is none yet.
pub open spec fn fresh_changelog() -> Seq<char> {
    "# Changelog\n\nAll notable changes to this project will be documented in this file.\n\nThe format is based on [Keep a Changelog](https://keepachangelog.com/en/1.0.0/).\n\n## [Unreleased]\n\n### Added\n\n### Fixed\n\n### Changed\n"@
}

/// The changelog that is written where there is none yet.
pub fn create_changelog() -> (r: String)
    ensures
        r@ == fresh_changelog(),
{
    "# Changelog\n\nAll notable changes to this project will be documented in this file.\n\nThe format is based on [Keep a Changelog](https://keepachangelog.com/en/1.0.0/).\n\n## [Unreleased]\n\n### Added\n\n### Fixed\n\n### Changed\n".to_owned()
}

} // verus!
