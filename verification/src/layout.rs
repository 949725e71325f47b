//! Lays a document out within a line width: a group is printed flat when
//! the rest of its line fits, and broken otherwise.
use vstd::prelude::*;
use crate::doc::{
    Doc, LineMode, all_hard, doc_size, docs_indent_depth, docs_size, indent_depth, is_hard,
    lemma_docs_indent_depth,
};
use crate::text::{push_str, spaces, string_of};

verus! {

/// Whether the soft lines of a document become spaces or line breaks.
#[derive(Debug, Clone, Copy, PartialEq, Eq, Structural)]
pub enum LayoutMode {
    Flat,
    Break,
}

/// A document still to lay out, with its indentation and mode.
#[derive(Clone, Copy)]
pub struct Command<'a> {
    pub indent: usize,
    pub mode: LayoutMode,
    pub doc: &'a Doc,
}

/// A command as a value: indentation, mode and document.
pub type Cmd = (int, LayoutMode, Doc);

/// The value of a command.
pub open spec fn cmd_view<'a>(c: Command<'a>) -> Cmd {
    (c.indent as int, c.mode, *c.doc)
}

/// The values of a stack of commands.
pub open spec fn stack_view<'a>(s: Seq<Command<'a>>) -> Seq<Cmd> {
    s.map_values(|c: Command<'a>| cmd_view(c))
}

/// The stack with the parts of a concatenation pushed so that the first part
/// is on top.
pub open spec fn push_parts(rest: Seq<Cmd>, parts: Seq<Doc>, ind: int, mode: LayoutMode) -> Seq<Cmd> {
    rest + Seq::new(parts.len(), |k: int| (ind, mode, parts[parts.len() - 1 - k]))
}

/// The number of document nodes on a stack.
pub open spec fn stack_size(s: Seq<Cmd>) -> nat
    decreases s.len(),
{
    if s.len() == 0 {
        0
    } else {
        stack_size(s.drop_last()) + doc_size(s.last().2)
    }
}

pub proof fn lemma_stack_concat(a: Seq<Cmd>, b: Seq<Cmd>)
    ensures
        stack_size(a + b) == stack_size(a) + stack_size(b),
    decreases b.len(),
{
    if b.len() > 0 {
        lemma_stack_concat(a, b.drop_last());
        assert((a + b).drop_last() =~= a + b.drop_last());
        assert((a + b).last() == b.last());
    } else {
        assert(a + b =~= a);
    }
}

pub proof fn lemma_stack_push(rest: Seq<Cmd>, c: Cmd)
    ensures
        stack_size(rest.push(c)) == stack_size(rest) + doc_size(c.2),
{
    assert(rest.push(c).drop_last() =~= rest);
}

pub proof fn lemma_push_parts(rest: Seq<Cmd>, parts: Seq<Doc>, ind: int, mode: LayoutMode)
    ensures
        stack_size(push_parts(rest, parts, ind, mode)) == stack_size(rest) + docs_size(parts),
    decreases parts.len(),
{
    let rev = Seq::new(parts.len(), |k: int| (ind, mode, parts[parts.len() - 1 - k]));
    lemma_stack_concat(rest, rev);
    if parts.len() > 0 {
        let front = parts.subrange(0, parts.len() - 1);
        let rev_front = Seq::new(front.len(), |k: int| (ind, mode, front[front.len() - 1 - k]));
        lemma_push_parts(Seq::empty(), front, ind, mode);
        assert(Seq::<Cmd>::empty() + rev_front =~= rev_front);
        assert(rev =~= seq![(ind, mode, parts[parts.len() - 1])] + rev_front);
        lemma_stack_concat(seq![(ind, mode, parts[parts.len() - 1])], rev_front);
        assert(seq![(ind, mode, parts[parts.len() - 1])].drop_last() =~= Seq::<Cmd>::empty());
    } else {
        assert(rev =~= Seq::<Cmd>::empty());
    }
}

/// Whether the commands fit in `remaining` columns up to their first line
/// break: texts take their length, a soft line laid out flat one column, and
/// a line break ends the check; a group is checked flat.
pub open spec fn fits_spec(remaining: int, stack: Seq<Cmd>) -> bool
    decreases stack_size(stack),
{
    if stack.len() == 0 {
        true
    } else {
        let (ind, mode, d) = stack.last();
        let rest = stack.drop_last();
        match d {
            Doc::Nil => fits_spec(remaining, rest),
            Doc::Text(t) => if t@.len() > remaining {
                false
            } else {
                fits_spec(remaining - t@.len(), rest)
            },
            Doc::Line(LineMode::Hard) => true,
            Doc::Line(LineMode::Soft) => if mode == LayoutMode::Flat {
                if remaining <= 0 {
                    false
                } else {
                    fits_spec(remaining - 1, rest)
                }
            } else {
                true
            },
            Doc::Concat(parts) => {
                proof {
                    lemma_push_parts(rest, parts@, 0, mode);
                }
                fits_spec(remaining, push_parts(rest, parts@, 0, mode))
            },
            Doc::Indent(_, inner) => {
                proof {
                    lemma_stack_push(rest, (0, mode, *inner));
                }
                fits_spec(remaining, rest.push((0, mode, *inner)))
            },
            Doc::Group(inner) => {
                proof {
                    lemma_stack_push(rest, (0, LayoutMode::Flat, *inner));
                }
                fits_spec(remaining, rest.push((0, LayoutMode::Flat, *inner)))
            },
        }
    }
}

/// A hard line break ends the check of whether commands fit: commands
/// whose next command is a hard line break always fit, whatever the width
/// left and whatever follows the break.
pub proof fn law_fits_at_hard_line(remaining: int, rest: Seq<Cmd>, ind: int, mode: LayoutMode)
    ensures
        fits_spec(remaining, rest.push((ind, mode, Doc::Line(LineMode::Hard)))),
{
    assert(rest.push((ind, mode, Doc::Line(LineMode::Hard))).drop_last() =~= rest);
}

/// Whether commands fit depends only on the commands up to the first hard
/// line break: two stacks that agree on the commands `top` laid out before a
/// hard line break fit alike, whatever lies beyond the break.
pub proof fn law_fits_ignores_past_hard_line(
    remaining: int,
    beyond1: Seq<Cmd>,
    beyond2: Seq<Cmd>,
    ind1: int,
    mode1: LayoutMode,
    ind2: int,
    mode2: LayoutMode,
    top: Seq<Cmd>,
)
    ensures
        fits_spec(remaining, beyond1.push((ind1, mode1, Doc::Line(LineMode::Hard))) + top)
            == fits_spec(remaining, beyond2.push((ind2, mode2, Doc::Line(LineMode::Hard))) + top),
    decreases stack_size(top),
{
    let x = beyond1.push((ind1, mode1, Doc::Line(LineMode::Hard)));
    let y = beyond2.push((ind2, mode2, Doc::Line(LineMode::Hard)));
    if top.len() == 0 {
        assert(x + top =~= x);
        assert(y + top =~= y);
        law_fits_at_hard_line(remaining, beyond1, ind1, mode1);
        law_fits_at_hard_line(remaining, beyond2, ind2, mode2);
    } else {
        let (i, m, d) = top.last();
        let td = top.drop_last();
        assert((x + top).last() == top.last());
        assert((y + top).last() == top.last());
        assert((x + top).drop_last() =~= x + td);
        assert((y + top).drop_last() =~= y + td);
        assert(top =~= td.push(top.last()));
        lemma_stack_push(td, top.last());
        match d {
            Doc::Nil => {
                law_fits_ignores_past_hard_line(remaining, beyond1, beyond2, ind1, mode1, ind2, mode2, td);
            },
            Doc::Text(t) => {
                law_fits_ignores_past_hard_line(remaining - t@.len(), beyond1, beyond2, ind1, mode1, ind2, mode2, td);
            },
            Doc::Line(LineMode::Hard) => {},
            Doc::Line(LineMode::Soft) => {
                law_fits_ignores_past_hard_line(remaining - 1, beyond1, beyond2, ind1, mode1, ind2, mode2, td);
            },
            Doc::Concat(parts) => {
                let pt = push_parts(td, parts@, 0, m);
                assert(push_parts(x + td, parts@, 0, m) =~= x + pt);
                assert(push_parts(y + td, parts@, 0, m) =~= y + pt);
                lemma_push_parts(td, parts@, 0, m);
                law_fits_ignores_past_hard_line(remaining, beyond1, beyond2, ind1, mode1, ind2, mode2, pt);
            },
            Doc::Indent(_, inner) => {
                let c = (0, m, *inner);
                assert((x + td).push(c) =~= x + td.push(c));
                assert((y + td).push(c) =~= y + td.push(c));
                lemma_stack_push(td, c);
                law_fits_ignores_past_hard_line(remaining, beyond1, beyond2, ind1, mode1, ind2, mode2, td.push(c));
            },
            Doc::Group(inner) => {
                let c = (0, LayoutMode::Flat, *inner);
                assert((x + td).push(c) =~= x + td.push(c));
                assert((y + td).push(c) =~= y + td.push(c));
                lemma_stack_push(td, c);
                law_fits_ignores_past_hard_line(remaining, beyond1, beyond2, ind1, mode1, ind2, mode2, td.push(c));
            },
        }
    }
}

/// More room never makes commands stop fitting.
pub proof fn law_fits_monotonic(r1: int, r2: int, stack: Seq<Cmd>)
    requires
        r1 <= r2,
        fits_spec(r1, stack),
    ensures
        fits_spec(r2, stack),
    decreases stack_size(stack),
{
    if stack.len() > 0 {
        let (i, m, d) = stack.last();
        let rest = stack.drop_last();
        assert(stack =~= rest.push(stack.last()));
        lemma_stack_push(rest, stack.last());
        match d {
            Doc::Nil => {
                law_fits_monotonic(r1, r2, rest);
            },
            Doc::Text(t) => {
                law_fits_monotonic(r1 - t@.len(), r2 - t@.len(), rest);
            },
            Doc::Line(LineMode::Hard) => {},
            Doc::Line(LineMode::Soft) => {
                if m == LayoutMode::Flat {
                    law_fits_monotonic(r1 - 1, r2 - 1, rest);
                }
            },
            Doc::Concat(parts) => {
                lemma_push_parts(rest, parts@, 0, m);
                law_fits_monotonic(r1, r2, push_parts(rest, parts@, 0, m));
            },
            Doc::Indent(_, inner) => {
                lemma_stack_push(rest, (0, m, *inner));
                law_fits_monotonic(r1, r2, rest.push((0, m, *inner)));
            },
            Doc::Group(inner) => {
                lemma_stack_push(rest, (0, LayoutMode::Flat, *inner));
                law_fits_monotonic(r1, r2, rest.push((0, LayoutMode::Flat, *inner)));
            },
        }
    }
}

/// The text that laying out the stack writes, from column `column` on, in a
/// line of `width` columns.
pub open spec fn layout_spec(stack: Seq<Cmd>, column: int, width: int) -> Seq<char>
    decreases stack_size(stack),
{
    if stack.len() == 0 {
        Seq::empty()
    } else {
        let (ind, mode, d) = stack.last();
        let rest = stack.drop_last();
        match d {
            Doc::Nil => layout_spec(rest, column, width),
            Doc::Text(t) => t@ + layout_spec(rest, column + t@.len(), width),
            Doc::Line(LineMode::Hard) => seq!['\n'] + spaces(ind as nat) + layout_spec(
                rest,
                ind,
                width,
            ),
            Doc::Line(LineMode::Soft) => if mode == LayoutMode::Flat {
                seq![' '] + layout_spec(rest, column + 1, width)
            } else {
                seq!['\n'] + spaces(ind as nat) + layout_spec(rest, ind, width)
            },
            Doc::Concat(parts) => {
                proof {
                    lemma_push_parts(rest, parts@, ind, mode);
                }
                layout_spec(push_parts(rest, parts@, ind, mode), column, width)
            },
            Doc::Indent(extra, inner) => {
                proof {
                    lemma_stack_push(rest, (ind + extra, mode, *inner));
                }
                layout_spec(rest.push((ind + extra, mode, *inner)), column, width)
            },
            Doc::Group(inner) => {
                let remaining = if width > column {
                    width - column
                } else {
                    0
                };
                let m = if fits_spec(remaining, rest.push((ind, LayoutMode::Flat, *inner))) {
                    LayoutMode::Flat
                } else {
                    LayoutMode::Break
                };
                proof {
                    lemma_stack_push(rest, (ind, m, *inner));
                }
                layout_spec(rest.push((ind, m, *inner)), column, width)
            },
        }
    }
}

/// The layout of a document in a line of `width` columns.
pub open spec fn rendered(doc: Doc, width: int) -> Seq<char> {
    layout_spec(seq![(0, LayoutMode::Break, doc)], 0, width)
}

/// Every command's indentation stays within the machine's range, down to
/// the deepest line of its document.
pub open spec fn indents_ok(stack: Seq<Cmd>) -> bool {
    forall|k: int|
        0 <= k < stack.len() ==> 0 <= (#[trigger] stack[k]).0 && stack[k].0 + indent_depth(stack[k].2)
            <= usize::MAX
}

/// Past the width, the column no longer matters: every group breaks.
proof fn lemma_column_past_width(stack: Seq<Cmd>, c1: int, c2: int, width: int)
    requires
        c1 >= width,
        c2 >= width,
    ensures
        layout_spec(stack, c1, width) == layout_spec(stack, c2, width),
    decreases stack_size(stack),
{
    if stack.len() > 0 {
        let (ind, mode, d) = stack.last();
        let rest = stack.drop_last();
        match d {
            Doc::Nil => {
                lemma_column_past_width(rest, c1, c2, width);
            },
            Doc::Text(t) => {
                lemma_column_past_width(rest, c1 + t@.len(), c2 + t@.len(), width);
            },
            Doc::Line(LineMode::Hard) => {},
            Doc::Line(LineMode::Soft) => {
                if mode == LayoutMode::Flat {
                    lemma_column_past_width(rest, c1 + 1, c2 + 1, width);
                }
            },
            Doc::Concat(parts) => {
                lemma_push_parts(rest, parts@, ind, mode);
                lemma_column_past_width(push_parts(rest, parts@, ind, mode), c1, c2, width);
            },
            Doc::Indent(extra, inner) => {
                lemma_stack_push(rest, (ind + extra, mode, *inner));
                lemma_column_past_width(rest.push((ind + extra, mode, *inner)), c1, c2, width);
            },
            Doc::Group(inner) => {
                let m = if fits_spec(0, rest.push((ind, LayoutMode::Flat, *inner))) {
                    LayoutMode::Flat
                } else {
                    LayoutMode::Break
                };
                lemma_stack_push(rest, (ind, m, *inner));
                lemma_column_past_width(rest.push((ind, m, *inner)), c1, c2, width);
            },
        }
    }
}

/// Whether the commands fit in `remaining` columns (see `fits_spec`).
fn fits<'a>(remaining: usize, first: Command<'a>, rest: &Vec<Command<'a>>) -> (r: bool)
    ensures
        r == fits_spec(remaining as int, stack_view(rest@).push(cmd_view(first))),
{
    let mut stack: Vec<Command<'a>> = Vec::new();
    let mut k: usize = 0;
    while k < rest.len()
        invariant
            k <= rest@.len(),
            stack@ == rest@.subrange(0, k as int),
        decreases rest@.len() - k,
    {
        stack.push(rest[k]);
        k = k + 1;
        assert(stack@ =~= rest@.subrange(0, k as int));
    }
    assert(rest@.subrange(0, rest@.len() as int) =~= rest@);
    stack.push(first);
    assert(stack_view(stack@) =~= stack_view(rest@).push(cmd_view(first)));
    let mut rem = remaining;
    let ghost goal = fits_spec(remaining as int, stack_view(rest@).push(cmd_view(first)));
    while stack.len() > 0
        invariant
            goal == fits_spec(remaining as int, stack_view(rest@).push(cmd_view(first))),
            fits_spec(rem as int, stack_view(stack@)) == goal,
        decreases stack_size(stack_view(stack@)),
    {
        let ghost before = stack_view(stack@);
        let cmd = stack.pop().unwrap();
        let ghost low = stack_view(stack@);
        assert(low =~= before.drop_last());
        assert(cmd_view(cmd) == before.last());
        match cmd.doc {
            Doc::Nil => {},
            Doc::Text(text) => {
                let width = text.as_str().unicode_len();
                if width > rem {
                    return false;
                }
                rem = rem - width;
            },
            Doc::Line(LineMode::Hard) => {
                return true;
            },
            Doc::Line(LineMode::Soft) => {
                match cmd.mode {
                    LayoutMode::Flat => {
                        if rem == 0 {
                            return false;
                        }
                        rem = rem - 1;
                    },
                    LayoutMode::Break => {
                        return true;
                    },
                }
            },
            Doc::Concat(parts) => {
                let mut j = parts.len();
                while j > 0
                    invariant
                        j <= parts@.len(),
                        stack_view(stack@) == low + Seq::new(
                            (parts@.len() - j) as nat,
                            |q: int| (0int, cmd.mode, parts@[parts@.len() - 1 - q]),
                        ),
                    decreases j,
                {
                    j = j - 1;
                    let ghost prev = stack_view(stack@);
                    stack.push(Command { indent: 0, mode: cmd.mode, doc: &parts[j] });
                    assert(stack_view(stack@) =~= prev.push((0int, cmd.mode, parts@[j as int])));
                    assert(stack_view(stack@) =~= low + Seq::new(
                        (parts@.len() - j) as nat,
                        |q: int| (0int, cmd.mode, parts@[parts@.len() - 1 - q]),
                    ));
                }
                proof {
                    lemma_push_parts(low, parts@, 0, cmd.mode);
                }
                assert(stack_view(stack@) =~= push_parts(low, parts@, 0, cmd.mode));
            },
            Doc::Indent(_, inner) => {
                stack.push(Command { indent: 0, mode: cmd.mode, doc: &**inner });
                assert(stack_view(stack@) =~= low.push((0int, cmd.mode, **inner)));
                proof {
                    lemma_stack_push(low, (0int, cmd.mode, **inner));
                }
            },
            Doc::Group(inner) => {
                stack.push(Command { indent: 0, mode: LayoutMode::Flat, doc: &**inner });
                assert(stack_view(stack@) =~= low.push((0int, LayoutMode::Flat, **inner)));
                proof {
                    lemma_stack_push(low, (0int, LayoutMode::Flat, **inner));
                }
            },
        }
    }
    true
}

/// Appends `n` spaces.
fn push_indent(out: &mut Vec<char>, indent: usize)
    ensures
        final(out)@ == old(out)@ + spaces(indent as nat),
{
    crate::text::push_spaces(out, indent);
}

/// Lays a document out in a line of `line_width` columns: a group is flat
/// when what follows it up to the next line break fits the rest of the line.
pub fn render(doc: &Doc, line_width: usize) -> (r: String)
    requires
        indent_depth(*doc) <= usize::MAX,
    ensures
        r@ == rendered(*doc, line_width as int),
{
    let mut out: Vec<char> = Vec::new();
    let mut column: usize = 0;
    let mut stack: Vec<Command> = Vec::new();
    stack.push(Command { indent: 0, mode: LayoutMode::Break, doc });
    let ghost goal = rendered(*doc, line_width as int);
    assert(stack_view(stack@) =~= seq![(0int, LayoutMode::Break, *doc)]);
    proof {
        lemma_stack_push(Seq::empty(), (0int, LayoutMode::Break, *doc));
        assert(Seq::<Cmd>::empty().push((0int, LayoutMode::Break, *doc)) =~= seq![
            (0int, LayoutMode::Break, *doc),
        ]);
    }
    while stack.len() > 0
        invariant
            out@ + layout_spec(stack_view(stack@), column as int, line_width as int) == goal,
            indents_ok(stack_view(stack@)),
        decreases stack_size(stack_view(stack@)),
    {
        let ghost before = stack_view(stack@);
        let cmd = stack.pop().unwrap();
        let ghost rest = stack_view(stack@);
        assert(rest =~= before.drop_last());
        assert(cmd_view(cmd) == before.last());
        assert(before[before.len() - 1] == cmd_view(cmd));
        assert(cmd.indent + indent_depth(*cmd.doc) <= usize::MAX);
        assert(stack_size(before) == stack_size(rest) + doc_size(*cmd.doc));
        let ghost mut added: Seq<Cmd> = Seq::empty();
        match cmd.doc {
            Doc::Nil => {},
            Doc::Text(text) => {
                let ghost o = out@;
                push_str(&mut out, text.as_str());
                let len = text.as_str().unicode_len();
                let ghost next = column + len;
                column = if len > usize::MAX - column {
                    usize::MAX
                } else {
                    column + len
                };
                proof {
                    if next > usize::MAX {
                        lemma_column_past_width(rest, next, column as int, line_width as int);
                    }
                }
                assert(o + (text@ + layout_spec(rest, next, line_width as int)) =~= out@
                    + layout_spec(rest, column as int, line_width as int));
            },
            Doc::Line(LineMode::Hard) => {
                let ghost o = out@;
                out.push('\n');
                push_indent(&mut out, cmd.indent);
                column = cmd.indent;
                assert(o + (seq!['\n'] + spaces(cmd.indent as nat) + layout_spec(
                    rest,
                    column as int,
                    line_width as int,
                )) =~= out@ + layout_spec(rest, column as int, line_width as int));
            },
            Doc::Line(LineMode::Soft) => {
                match cmd.mode {
                    LayoutMode::Flat => {
                        let ghost o = out@;
                        out.push(' ');
                        let ghost next = column + 1;
                        column = if column == usize::MAX {
                            usize::MAX
                        } else {
                            column + 1
                        };
                        proof {
                            if next > usize::MAX {
                                lemma_column_past_width(rest, next, column as int, line_width as int);
                            }
                        }
                        assert(o + (seq![' '] + layout_spec(rest, next, line_width as int))
                            =~= out@ + layout_spec(rest, column as int, line_width as int));
                    },
                    LayoutMode::Break => {
                        let ghost o = out@;
                        out.push('\n');
                        push_indent(&mut out, cmd.indent);
                        column = cmd.indent;
                        assert(o + (seq!['\n'] + spaces(cmd.indent as nat) + layout_spec(
                            rest,
                            column as int,
                            line_width as int,
                        )) =~= out@ + layout_spec(rest, column as int, line_width as int));
                    },
                }
            },
            Doc::Concat(parts) => {
                let mut j = parts.len();
                while j > 0
                    invariant
                        j <= parts@.len(),
                        stack_view(stack@) == rest + Seq::new(
                            (parts@.len() - j) as nat,
                            |q: int| (cmd.indent as int, cmd.mode, parts@[parts@.len() - 1 - q]),
                        ),
                    decreases j,
                {
                    j = j - 1;
                    let ghost prev = stack_view(stack@);
                    stack.push(Command { indent: cmd.indent, mode: cmd.mode, doc: &parts[j] });
                    assert(stack_view(stack@) =~= prev.push(
                        (cmd.indent as int, cmd.mode, parts@[j as int]),
                    ));
                    assert(stack_view(stack@) =~= rest + Seq::new(
                        (parts@.len() - j) as nat,
                        |q: int| (cmd.indent as int, cmd.mode, parts@[parts@.len() - 1 - q]),
                    ));
                }
                proof {
                    lemma_push_parts(rest, parts@, cmd.indent as int, cmd.mode);
                    lemma_push_parts(Seq::empty(), parts@, cmd.indent as int, cmd.mode);
                    lemma_docs_indent_depth(parts@);
                    added = Seq::new(
                        parts@.len(),
                        |q: int| (cmd.indent as int, cmd.mode, parts@[parts@.len() - 1 - q]),
                    );
                    assert(Seq::<Cmd>::empty() + added =~= added);
                    assert forall|k: int| 0 <= k < added.len() implies (#[trigger] added[k]).0
                        == cmd.indent by {}
                }
                assert(stack_view(stack@) =~= push_parts(rest, parts@, cmd.indent as int, cmd.mode));
            },
            Doc::Indent(extra, inner) => {
                stack.push(Command { indent: cmd.indent + *extra, mode: cmd.mode, doc: &**inner });
                proof {
                    added = seq![((cmd.indent + *extra) as int, cmd.mode, **inner)];
                    lemma_stack_push(Seq::empty(), added[0]);
                    assert(Seq::<Cmd>::empty().push(added[0]) =~= added);
                }
                assert(stack_view(stack@) =~= rest.push(
                    ((cmd.indent + *extra) as int, cmd.mode, **inner),
                ));
                proof {
                    lemma_stack_push(rest, ((cmd.indent + *extra) as int, cmd.mode, **inner));
                }
            },
            Doc::Group(inner) => {
                let remaining = if line_width > column {
                    line_width - column
                } else {
                    0
                };
                let first = Command { indent: cmd.indent, mode: LayoutMode::Flat, doc: &**inner };
                let next_mode = if fits(remaining, first, &stack) {
                    LayoutMode::Flat
                } else {
                    LayoutMode::Break
                };
                stack.push(Command { indent: cmd.indent, mode: next_mode, doc: &**inner });
                proof {
                    added = seq![(cmd.indent as int, next_mode, **inner)];
                    lemma_stack_push(Seq::empty(), added[0]);
                    assert(Seq::<Cmd>::empty().push(added[0]) =~= added);
                }
                assert(stack_view(stack@) =~= rest.push((cmd.indent as int, next_mode, **inner)));
                proof {
                    lemma_stack_push(rest, (cmd.indent as int, next_mode, **inner));
                }
            },
        }
        proof {
            assert(stack_view(stack@) =~= rest + added);
            let after = rest + added;
            assert forall|k: int| 0 <= k < after.len() implies 0 <= (#[trigger] after[k]).0
                && after[k].0 + indent_depth(after[k].2) <= usize::MAX by {
                if k < rest.len() {
                    assert(after[k] == before[k]);
                } else {
                    assert(after[k] == added[k - rest.len()]);
                }
            }
        }
    }
    assert(out@ + Seq::<char>::empty() =~= out@);
    string_of(&out)
}


/// The text of a document laid out with every line broken: texts as they
/// are, and each line break followed by the indentation.
pub open spec fn flat_text(d: Doc, ind: int) -> Seq<char>
    decreases d, 0nat,
{
    match d {
        Doc::Nil => Seq::empty(),
        Doc::Text(t) => t@,
        Doc::Line(_) => seq!['\n'] + spaces(ind as nat),
        Doc::Concat(parts) => flat_texts(parts@, ind),
        Doc::Group(inner) => flat_text(*inner, ind),
        Doc::Indent(extra, inner) => flat_text(*inner, ind + extra),
    }
}

/// The texts of documents one after the other (see `flat_text`).
pub open spec fn flat_texts(s: Seq<Doc>, ind: int) -> Seq<char>
    decreases s, s.len(),
{
    if s.len() == 0 {
        Seq::empty()
    } else {
        flat_texts(s.subrange(0, s.len() - 1), ind) + flat_text(s[s.len() - 1], ind)
    }
}

/// The texts of a stack of commands, top first.
pub open spec fn stack_text(s: Seq<Cmd>) -> Seq<char>
    decreases s.len(),
{
    if s.len() == 0 {
        Seq::empty()
    } else {
        flat_text(s.last().2, s.last().0) + stack_text(s.drop_last())
    }
}

/// No document on the stack holds a soft line.
pub open spec fn stack_hard(s: Seq<Cmd>) -> bool {
    forall|k: int| 0 <= k < s.len() ==> is_hard(#[trigger] s[k].2)
}

proof fn lemma_push_parts_text(rest: Seq<Cmd>, parts: Seq<Doc>, ind: int, mode: LayoutMode)
    requires
        all_hard(parts),
        stack_hard(rest),
    ensures
        stack_text(push_parts(rest, parts, ind, mode)) == flat_texts(parts, ind) + stack_text(rest),
        stack_hard(push_parts(rest, parts, ind, mode)),
    decreases parts.len(),
{
    let all = push_parts(rest, parts, ind, mode);
    if parts.len() == 0 {
        assert(all =~= rest);
        assert(flat_texts(parts, ind) + stack_text(rest) =~= stack_text(rest));
    } else {
        let n = parts.len();
        let front = parts.subrange(0, n - 1);
        let with_last = rest.push((ind, mode, parts[n - 1]));
        assert(all_hard(front) && is_hard(parts[n - 1]));
        assert(stack_hard(with_last)) by {
            assert forall|k: int| 0 <= k < with_last.len() implies is_hard(#[trigger] with_last[k].2) by {
                if k < rest.len() {
                    assert(with_last[k] == rest[k]);
                }
            }
        }
        lemma_push_parts_text(with_last, front, ind, mode);
        assert(push_parts(with_last, front, ind, mode) =~= all);
        assert(with_last.drop_last() =~= rest);
        assert(stack_text(with_last) == flat_text(parts[n - 1], ind) + stack_text(rest));
        assert(flat_texts(parts, ind) == flat_texts(front, ind) + flat_text(parts[n - 1], ind));
        assert(flat_texts(front, ind) + (flat_text(parts[n - 1], ind) + stack_text(rest))
            =~= flat_texts(parts, ind) + stack_text(rest));
    }
}

proof fn lemma_hard_stack_layout(stack: Seq<Cmd>, column: int, width: int)
    requires
        stack_hard(stack),
    ensures
        layout_spec(stack, column, width) == stack_text(stack),
    decreases stack_size(stack),
{
    if stack.len() > 0 {
        let (ind, mode, d) = stack.last();
        let rest = stack.drop_last();
        assert(is_hard(stack[stack.len() - 1].2));
        assert(stack_hard(rest)) by {
            assert forall|k: int| 0 <= k < rest.len() implies is_hard(#[trigger] rest[k].2) by {
                assert(rest[k] == stack[k]);
            }
        }
        match d {
            Doc::Nil => {
                lemma_hard_stack_layout(rest, column, width);
                assert(Seq::<char>::empty() + stack_text(rest) =~= stack_text(rest));
            },
            Doc::Text(t) => {
                lemma_hard_stack_layout(rest, column + t@.len(), width);
            },
            Doc::Line(m) => {
                assert(m == LineMode::Hard);
                lemma_hard_stack_layout(rest, ind, width);
                assert(seq!['\n'] + spaces(ind as nat) + stack_text(rest) =~= (seq!['\n'] + spaces(
                    ind as nat,
                )) + stack_text(rest));
            },
            Doc::Concat(parts) => {
                lemma_push_parts(rest, parts@, ind, mode);
                lemma_push_parts_text(rest, parts@, ind, mode);
                lemma_hard_stack_layout(push_parts(rest, parts@, ind, mode), column, width);
            },
            Doc::Indent(extra, inner) => {
                let next = rest.push((ind + extra, mode, *inner));
                lemma_stack_push(rest, (ind + extra, mode, *inner));
                assert(next.drop_last() =~= rest);
                assert(stack_hard(next)) by {
                    assert forall|k: int| 0 <= k < next.len() implies is_hard(#[trigger] next[k].2) by {
                        if k < rest.len() {
                            assert(next[k] == rest[k]);
                        }
                    }
                }
                lemma_hard_stack_layout(next, column, width);
            },
            Doc::Group(inner) => {
                let remaining = if width > column {
                    width - column
                } else {
                    0
                };
                let m = if fits_spec(remaining, rest.push((ind, LayoutMode::Flat, *inner))) {
                    LayoutMode::Flat
                } else {
                    LayoutMode::Break
                };
                let next = rest.push((ind, m, *inner));
                lemma_stack_push(rest, (ind, m, *inner));
                assert(next.drop_last() =~= rest);
                assert(stack_hard(next)) by {
                    assert forall|k: int| 0 <= k < next.len() implies is_hard(#[trigger] next[k].2) by {
                        if k < rest.len() {
                            assert(next[k] == rest[k]);
                        }
                    }
                }
                lemma_hard_stack_layout(next, column, width);
            },
        }
    }
}

/// A document without soft lines is laid out the same at every width: its
/// texts, with each line break followed by the indentation in force.
pub proof fn lemma_hard_doc_rendered(doc: Doc, width: int)
    requires
        is_hard(doc),
    ensures
        rendered(doc, width) == flat_text(doc, 0),
{
    let stack = seq![(0int, LayoutMode::Break, doc)];
    assert(stack_hard(stack));
    lemma_hard_stack_layout(stack, 0, width);
    assert(stack.drop_last() =~= Seq::<Cmd>::empty());
    assert(stack.last() == (0int, LayoutMode::Break, doc));
    assert(stack_text(Seq::<Cmd>::empty()) == Seq::<char>::empty());
    assert(stack_text(stack) == flat_text(doc, 0) + stack_text(stack.drop_last()));
    assert(flat_text(doc, 0) + Seq::<char>::empty() =~= flat_text(doc, 0));
}

} // verus!
