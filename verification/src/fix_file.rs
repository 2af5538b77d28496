//! The pending-edit record and the splice engine.
//!
//! `get_changes` walks a parsed program and collects the edits to make;
//! `change_content` applies them to the source lines, merging multi-line call
//! sites onto a single line and preserving a trailing comma on the removed
//! span's last line.

use vstd::prelude::*;

use crate::ast::Stmt;
use crate::cli::LogLevel;
use crate::parse_format::FormatCallError;
use crate::parse_format::FormatSpecError;
use crate::parse_format::fce_view;
use crate::text::join_texts;
use crate::text::join_with;
use crate::text::split_lines;
use crate::text::split_lines_spec;
use crate::text::strings_view;
use crate::visitor::changes_view;
use crate::visitor::skips_view;
use crate::visitor::walk_stmt_list;
use crate::visitor::walk_stmt_list_spec;

verus! {

/// One pending edit: the source span to replace (rows 1-indexed, character
/// columns 0-indexed, end column exclusive), the new template, its ordered
/// argument texts, and the quote character to delimit the template with.
#[derive(Debug, Clone, PartialEq)]
pub struct Change {
    pub lineno: usize,
    pub col_offset: usize,
    pub end_lineno: usize,
    pub end_col_offset: usize,
    pub new_string_content: String,
    pub new_string_variables: Vec<String>,
    pub quote: char,
}

/// A pending edit over mathematical values.
pub struct SpecChange {
    pub lineno: int,
    pub col_offset: int,
    pub end_lineno: int,
    pub end_col_offset: int,
    pub new_string_content: Seq<char>,
    pub new_string_variables: Seq<Seq<char>>,
    pub quote: char,
}

/// The mathematical value of a pending edit.
pub open spec fn change_view(c: Change) -> SpecChange {
    SpecChange {
        lineno: c.lineno as int,
        col_offset: c.col_offset as int,
        end_lineno: c.end_lineno as int,
        end_col_offset: c.end_col_offset as int,
        new_string_content: c.new_string_content@,
        new_string_variables: strings_view(c.new_string_variables@),
        quote: c.quote,
    }
}

/// The replacement text of an edit: the quoted template, then the arguments
/// comma-joined; a change with no arguments is the quoted template alone.
pub open spec fn render_change_text(c: SpecChange) -> Seq<char> {
    let quoted = seq![c.quote] + c.new_string_content + seq![c.quote];
    if c.new_string_variables.len() == 0 {
        quoted
    } else {
        quoted + ", "@ + join_texts(c.new_string_variables, ", "@)
    }
}

/// Applies one edit to the line array, given how many rows earlier edits have
/// removed. An edit whose span does not fit the current lines is skipped.
///
/// A one-row edit replaces the span's column range on its line. An edit over
/// several rows replaces from the start column to the end of the first line,
/// removes the following rows up to and including the span's last row, and
/// keeps a trailing comma if that last row ended with one.
pub open spec fn splice_step(lines: Seq<Seq<char>>, popped: int, c: SpecChange) -> (
    Seq<Seq<char>>,
    int,
) {
    if c.lineno < popped + 1 {
        (lines, popped)
    } else {
        let idx = c.lineno - 1 - popped;
        if c.lineno == c.end_lineno {
            if idx < lines.len() && c.col_offset <= c.end_col_offset && c.end_col_offset
                <= lines[idx].len() {
                let new_line = lines[idx].subrange(0, c.col_offset) + render_change_text(c)
                    + lines[idx].subrange(c.end_col_offset, lines[idx].len() as int);
                (lines.update(idx, new_line), popped)
            } else {
                (lines, popped)
            }
        } else if c.lineno < c.end_lineno {
            if c.end_lineno - popped <= lines.len() && c.col_offset <= lines[idx].len() {
                let last = lines[c.end_lineno - 1 - popped];
                let comma = last.len() > 0 && last.last() == ',';
                let rendered = if comma {
                    render_change_text(c) + ","@
                } else {
                    render_change_text(c)
                };
                let new_first = lines[idx].subrange(0, c.col_offset) + rendered;
                let updated = lines.update(idx, new_first);
                let removed = updated.subrange(0, idx + 1) + updated.subrange(
                    c.end_lineno - popped,
                    updated.len() as int,
                );
                (removed, popped + (c.end_lineno - c.lineno))
            } else {
                (lines, popped)
            }
        } else {
            (lines, popped)
        }
    }
}

/// Multi-line splice law: applying an edit that spans several rows (with no
/// rows removed so far) collapses the call site onto its first row — that row
/// becomes its prefix up to the start column followed by the replacement
/// text, with the trailing comma preserved when the span's last row ended
/// with one; the rows after the first up to and including the span's last row
/// are removed; every other row is kept, the following ones shifted up by the
/// number of removed rows.
pub proof fn lemma_multiline_splice(lines: Seq<Seq<char>>, c: SpecChange)
    requires
        1 <= c.lineno < c.end_lineno,
        c.end_lineno <= lines.len(),
        0 <= c.col_offset <= lines[c.lineno - 1].len(),
        lines[c.end_lineno - 1].len() > 0,
        lines[c.end_lineno - 1].last() == ',',
    ensures
        splice_step(lines, 0, c).0.len() == lines.len() - (c.end_lineno - c.lineno),
        splice_step(lines, 0, c).0[c.lineno - 1] == lines[c.lineno - 1].subrange(0, c.col_offset)
            + render_change_text(c) + ","@,
        forall|j: int| 0 <= j < c.lineno - 1 ==> splice_step(lines, 0, c).0[j] == lines[j],
        forall|j: int|
            c.lineno <= j < lines.len() - (c.end_lineno - c.lineno) ==> splice_step(lines, 0, c).0[j]
                == lines[j + (c.end_lineno - c.lineno)],
        splice_step(lines, 0, c).1 == c.end_lineno - c.lineno,
{
    let idx = c.lineno - 1;
    let rendered = render_change_text(c) + ","@;
    let new_first = lines[idx].subrange(0, c.col_offset) + rendered;
    let updated = lines.update(idx, new_first);
    let removed = updated.subrange(0, idx + 1) + updated.subrange(
        c.end_lineno as int,
        updated.len() as int,
    );
    assert(splice_step(lines, 0, c).0 == removed);
    assert(removed.len() == lines.len() - (c.end_lineno - c.lineno));
    assert(removed[idx] == updated.subrange(0, idx + 1)[idx]);
    assert(removed[idx] == new_first);
    assert(forall|j: int| 0 <= j < idx ==> removed[j] == updated[j] && updated[j] == lines[j]);
    assert(forall|j: int|
        c.lineno <= j < removed.len() ==> removed[j] == updated[j + (c.end_lineno - c.lineno)]
            && updated[j + (c.end_lineno - c.lineno)] == lines[j + (c.end_lineno - c.lineno)]);
}

/// Applies the remaining edits in order, threading the removed-row count.
pub open spec fn splice_all(lines: Seq<Seq<char>>, popped: int, changes: Seq<SpecChange>) -> Seq<
    Seq<char>,
>
    decreases changes.len(),
{
    if changes.len() == 0 {
        lines
    } else {
        let st = splice_step(lines, popped, changes[0]);
        splice_all(st.0, st.1, changes.drop_first())
    }
}

/// The lines of `content` with every edit applied, in order.
pub open spec fn change_content_spec(content: Seq<char>, changes: Seq<SpecChange>) -> Seq<
    Seq<char>,
> {
    splice_all(split_lines_spec(content), 0, changes)
}

/// Applies the collected edits to the file content, line by line. The
/// returned flag tells whether any edit was requested.
#[verifier::loop_isolation(false)]
pub fn change_content(content: &str, changes: &Vec<Change>) -> (r: (Vec<String>, bool))
    ensures
        strings_view(r.0@) == change_content_spec(content@, changes_view(changes@)),
        r.1 == (changes@.len() > 0),
{
    let ghost gchanges = changes_view(changes@);
    let mut lines = split_lines(content);
    let mut popped: usize = 0;
    let mut i: usize = 0;
    proof {
        assert(gchanges.skip(0) =~= gchanges);
    }
    while i < changes.len()
        invariant
            i <= changes@.len(),
            gchanges == changes_view(changes@),
            change_content_spec(content@, gchanges) == splice_all(
                strings_view(lines@),
                popped as int,
                gchanges.skip(i as int),
            ),
        decreases changes@.len() - i,
    {
        proof {
            assert(gchanges.skip(i as int)[0] == gchanges[i as int]);
            assert(gchanges.skip(i as int).drop_first() =~= gchanges.skip(i + 1));
        }
        let c = &changes[i];
        let ghost sc = gchanges[i as int];
        let ghost pre_lines = strings_view(lines@);

        // The replacement text.
        let mut logger = String::new();
        logger.push(c.quote);
        logger.append(c.new_string_content.as_str());
        logger.push(c.quote);
        if c.new_string_variables.len() > 0 {
            logger.append(", ");
            logger.append(join_with(&c.new_string_variables, ", ").as_str());
        }
        proof {
            assert(logger@ =~= render_change_text(sc));
        }

        if c.lineno > popped {
            let idx = c.lineno - 1 - popped;
            if c.lineno == c.end_lineno {
                if idx < lines.len() && c.col_offset <= c.end_col_offset {
                    let n = lines[idx].as_str().unicode_len();
                    if c.end_col_offset <= n {
                        let mut new_line = lines[idx].as_str().substring_char(
                            0,
                            c.col_offset,
                        ).to_owned();
                        new_line.append(logger.as_str());
                        new_line.append(lines[idx].as_str().substring_char(c.end_col_offset, n));
                        lines[idx] = new_line;
                        proof {
                            assert(strings_view(lines@) =~= splice_step(pre_lines, popped as int, sc).0);
                        }
                    }
                }
            } else if c.lineno < c.end_lineno {
                if c.end_lineno - popped <= lines.len() {
                    let n = lines[idx].as_str().unicode_len();
                    if c.col_offset <= n {
                        // keep a trailing comma from the span's last line
                        let last_idx = c.end_lineno - 1 - popped;
                        let last_n = lines[last_idx].as_str().unicode_len();
                        if last_n > 0 && lines[last_idx].as_str().get_char(last_n - 1) == ',' {
                            logger.push(',');
                        }
                        let ghost rendered_spec = if pre_lines[c.end_lineno - 1 - popped].len() > 0
                            && pre_lines[c.end_lineno - 1 - popped].last() == ',' {
                            render_change_text(sc) + ","@
                        } else {
                            render_change_text(sc)
                        };
                        proof {
                            reveal_strlit(",");
                            assert(","@ =~= seq![',']);
                            assert(logger@ =~= rendered_spec);
                        }
                        let mut new_first = lines[idx].as_str().substring_char(
                            0,
                            c.col_offset,
                        ).to_owned();
                        new_first.append(logger.as_str());
                        proof {
                            assert(new_first@ =~= pre_lines[idx as int].subrange(
                                0,
                                sc.col_offset,
                            ) + rendered_spec);
                        }
                        lines[idx] = new_first;
                        let ghost updated = strings_view(lines@);
                        proof {
                            assert(updated =~= pre_lines.update(
                                idx as int,
                                pre_lines[idx as int].subrange(0, sc.col_offset) + rendered_spec,
                            ));
                        }
                        let removed_rows = c.end_lineno - c.lineno;
                        let mut t: usize = 0;
                        while t < removed_rows
                            invariant
                                t <= removed_rows,
                                idx + 1 <= lines@.len(),
                                lines@.len() == updated.len() - t,
                                removed_rows == c.end_lineno - c.lineno,
                                idx == c.lineno - 1 - popped,
                                c.end_lineno - popped <= updated.len(),
                                strings_view(lines@) =~= updated.subrange(0, idx + 1 as int)
                                    + updated.subrange(
                                    idx + 1 + t as int,
                                    updated.len() as int,
                                ),
                            decreases removed_rows - t,
                        {
                            let ghost before = lines@;
                            lines.remove(idx + 1);
                            proof {
                                let after = strings_view(lines@);
                                let tgt = updated.subrange(0, idx + 1 as int) + updated.subrange(
                                    idx + 1 + (t + 1) as int,
                                    updated.len() as int,
                                );
                                assert(lines@ == before.remove(idx + 1 as int));
                                assert(before.remove(idx + 1 as int) =~= before.subrange(
                                    0,
                                    idx + 1 as int,
                                ) + before.subrange(idx + 2 as int, before.len() as int));
                                assert(after.len() == before.len() - 1);
                                assert(tgt.len() == after.len());
                                assert forall|j: int| 0 <= j < after.len() implies after[j]
                                    == tgt[j] by {
                                    assert(after[j] == lines@[j]@);
                                    if j <= idx {
                                        assert(lines@[j] == before[j]);
                                        assert(strings_view(before)[j] == before[j]@);
                                        assert(strings_view(before)[j] == updated[j]);
                                        assert(tgt[j] == updated[j]);
                                    } else {
                                        assert(lines@[j] == before[j + 1]);
                                        assert(strings_view(before)[j + 1] == before[j + 1]@);
                                        assert(strings_view(before)[j + 1] == updated[t + j + 1]);
                                        assert(tgt[j] == updated[t + j + 1]);
                                    }
                                }
                                assert(after =~= tgt);
                            }
                            t += 1;
                        }
                        proof {
                            assert(strings_view(lines@) =~= splice_step(
                                pre_lines,
                                popped as int,
                                sc,
                            ).0);
                        }
                        popped = popped + removed_rows;
                    }
                }
            }
        }
        i += 1;
    }
    proof {
        assert(gchanges.skip(gchanges.len() as int) =~= Seq::<SpecChange>::empty());
    }
    (lines, changes.len() > 0)
}

/// Walks a parsed program and collects the edits to make, together with the
/// rows of call sites that were skipped because a value could not be
/// rendered or a quote could not be inferred. An excess or unfilled
/// `.format()` argument fails the whole run instead.
pub fn get_changes(program: &Vec<Stmt>, content: &str, log_level: LogLevel) -> (r: Result<
    (Vec<Change>, Vec<usize>),
    FormatCallError,
>)
    ensures
        match r {
            Ok(p) => walk_stmt_list_spec(program@, split_lines_spec(content@), log_level) == Ok::<
                (Seq<SpecChange>, Seq<int>),
                FormatSpecError,
            >((changes_view(p.0@), skips_view(p.1@))),
            Err(e) => walk_stmt_list_spec(program@, split_lines_spec(content@), log_level) == Err::<
                (Seq<SpecChange>, Seq<int>),
                FormatSpecError,
            >(fce_view(e)),
        },
{
    let lines = split_lines(content);
    let mut changes: Vec<Change> = Vec::new();
    let mut skipped: Vec<usize> = Vec::new();
    match walk_stmt_list(program, &lines, log_level, &mut changes, &mut skipped) {
        Ok(_) => {
            proof {
                let p = walk_stmt_list_spec(
                    program@,
                    split_lines_spec(content@),
                    log_level,
                )->Ok_0;
                assert(Seq::<SpecChange>::empty() + p.0 =~= p.0);
                assert(Seq::<int>::empty() + p.1 =~= p.1);
                assert(changes_view(Seq::<Change>::empty()) =~= Seq::<SpecChange>::empty());
                assert(skips_view(Seq::<usize>::empty()) =~= Seq::<int>::empty());
            }
            Ok((changes, skipped))
        },
        Err(e) => Err(e),
    }
}

} // verus!
