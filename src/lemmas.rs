use vstd::prelude::*;

use crate::vga_buffer::{
    blank, blank_row, is_printable, line_advance, put_byte, put_text, render, ColorCode, ScreenChar,
    WriterState, BUFFER_HEIGHT, BUFFER_WIDTH, NEWLINE,
};

verus! {

/// A row showing `line` from column 0 in attribute `color`, blank after it.
pub open spec fn padded(line: Seq<u8>, color: ColorCode) -> Seq<ScreenChar> {
    Seq::new(
        BUFFER_WIDTH as nat,
        |c: int|
            if c < line.len() {
                ScreenChar { byte: line[c], color_code: color }
            } else {
                blank(color)
            },
    )
}

/// A line that fits in one row and holds printable bytes only.
pub open spec fn short_printable(line: Seq<u8>) -> bool {
    &&& line.len() <= BUFFER_WIDTH
    &&& forall|i: int| 0 <= i < line.len() ==> is_printable(#[trigger] line[i])
}

/// A writer whose cursor stands at column 0 of a blank bottom row, as after
/// construction or a line advance.
pub open spec fn fresh(s: WriterState) -> bool {
    &&& s.wf()
    &&& s.column == 0
    &&& s.grid[BUFFER_HEIGHT - 1] == blank_row(s.color)
}

/// The text of `lines`, each followed by a newline.
pub open spec fn lines_text(lines: Seq<Seq<u8>>) -> Seq<u8>
    decreases lines.len(),
{
    if lines.len() == 0 {
        Seq::empty()
    } else {
        lines_text(lines.drop_last()) + lines.last().push(NEWLINE)
    }
}

/// Writing one byte keeps a writer well formed.
pub proof fn lemma_put_byte_wf(s: WriterState, b: u8)
    requires
        s.wf(),
    ensures
        put_byte(s, b).wf(),
{
    lemma_line_advance_fresh(s);
}

/// A line advance leaves every cell of the bottom row blank in the writer's
/// attribute, the cursor at column 0, and the other rows moved up by one.
pub proof fn lemma_line_advance_fresh(s: WriterState)
    requires
        s.wf(),
    ensures
        fresh(line_advance(s)),
        line_advance(s).color == s.color,
        forall|r: int| 0 <= r < BUFFER_HEIGHT - 1 ==> #[trigger] line_advance(s).grid[r] == s.grid[r + 1],
        forall|c: int|
            0 <= c < BUFFER_WIDTH ==> #[trigger] line_advance(s).grid[BUFFER_HEIGHT - 1][c] == blank(s.color),
{
    let t = line_advance(s);
    assert forall|r: int| 0 <= r < BUFFER_HEIGHT implies (#[trigger] t.grid[r]).len() == BUFFER_WIDTH by {
        if r < BUFFER_HEIGHT - 1 {
            assert(t.grid[r] == s.grid[r + 1]);
        }
    }
}

/// Writing any text to a well-formed writer keeps it well formed: in
/// particular the cursor never passes the end of the row, however long the
/// text, since a full row is wrapped before the next glyph is placed.
pub proof fn lemma_text_keeps_wf(s: WriterState, bytes: Seq<u8>)
    requires
        s.wf(),
    ensures
        put_text(s, bytes).wf(),
        put_text(s, bytes).column <= BUFFER_WIDTH,
        put_text(s, bytes).color == s.color,
    decreases bytes.len(),
{
    if bytes.len() > 0 {
        lemma_text_keeps_wf(s, bytes.drop_last());
        lemma_put_byte_wf(put_text(s, bytes.drop_last()), render(bytes.last()));
    }
}

/// Writing a short printable line to a fresh writer fills the bottom row
/// with it and moves the cursor to its end; nothing else changes.
proof fn lemma_line_on_fresh(s: WriterState, line: Seq<u8>)
    requires
        fresh(s),
        short_printable(line),
    ensures
        put_text(s, line) == (WriterState {
            column: line.len(),
            color: s.color,
            grid: s.grid.update(BUFFER_HEIGHT - 1, padded(line, s.color)),
        }),
    decreases line.len(),
{
    if line.len() == 0 {
        assert(padded(line, s.color) =~= blank_row(s.color));
        assert(s.grid.update(BUFFER_HEIGHT - 1, padded(line, s.color)) =~= s.grid);
    } else {
        let front = line.drop_last();
        let k = front.len();
        assert forall|i: int| 0 <= i < front.len() implies is_printable(#[trigger] front[i]) by {
            assert(front[i] == line[i]);
        }
        lemma_line_on_fresh(s, front);
        let b = line.last();
        assert(is_printable(line[line.len() - 1]));
        assert(render(b) == b);
        let cell = ScreenChar { byte: b, color_code: s.color };
        assert(padded(front, s.color).update(k as int, cell) =~= padded(line, s.color));
        let grid1 = s.grid.update(BUFFER_HEIGHT - 1, padded(front, s.color));
        assert(grid1.update(BUFFER_HEIGHT - 1, grid1[BUFFER_HEIGHT - 1].update(k as int, cell))
            =~= s.grid.update(BUFFER_HEIGHT - 1, padded(line, s.color)));
    }
}

/// Placement: a printable line shorter than a row, written to a fresh
/// writer, stands at columns `0..len` of the bottom row, byte for byte and in
/// the writer's attribute, with blanks after it; written with a trailing
/// newline, it stands so on the row above the bottom one.
pub proof fn lemma_placement(s: WriterState, line: Seq<u8>)
    requires
        fresh(s),
        line.len() < BUFFER_WIDTH,
        forall|i: int| 0 <= i < line.len() ==> is_printable(#[trigger] line[i]),
    ensures
        put_text(s, line).grid[BUFFER_HEIGHT - 1] == padded(line, s.color),
        put_text(s, line.push(NEWLINE)).grid[BUFFER_HEIGHT - 2] == padded(line, s.color),
        forall|c: int|
            0 <= c < line.len() ==> #[trigger] put_text(s, line).grid[BUFFER_HEIGHT - 1][c] == (ScreenChar {
                byte: line[c],
                color_code: s.color,
            }),
        forall|c: int|
            0 <= c < line.len() ==> #[trigger] put_text(s, line.push(NEWLINE)).grid[BUFFER_HEIGHT - 2][c]
                == (ScreenChar { byte: line[c], color_code: s.color }),
{
    lemma_line_on_fresh(s, line);
    let t = put_text(s, line);
    let with_nl = line.push(NEWLINE);
    assert(with_nl.drop_last() =~= line);
    assert(render(NEWLINE) == NEWLINE);
    assert(put_text(s, with_nl) == line_advance(t));
    lemma_text_keeps_wf(s, line);
    lemma_line_advance_fresh(t);
}

/// Writing `a` then `b` is writing `a + b`.
pub proof fn lemma_put_text_append(s: WriterState, a: Seq<u8>, b: Seq<u8>)
    ensures
        put_text(s, a + b) == put_text(put_text(s, a), b),
    decreases b.len(),
{
    if b.len() == 0 {
        assert(a + b =~= a);
    } else {
        assert((a + b).drop_last() =~= a + b.drop_last());
        assert((a + b).last() == b.last());
        lemma_put_text_append(s, a, b.drop_last());
    }
}

proof fn lemma_lines_text_append(a: Seq<Seq<u8>>, b: Seq<Seq<u8>>)
    ensures
        lines_text(a + b) == lines_text(a) + lines_text(b),
    decreases b.len(),
{
    if b.len() == 0 {
        assert(a + b =~= a);
        assert(lines_text(a) + lines_text(b) =~= lines_text(a));
    } else {
        assert((a + b).drop_last() =~= a + b.drop_last());
        lemma_lines_text_append(a, b.drop_last());
        assert(lines_text(a + b) =~= lines_text(a) + lines_text(b));
    }
}

/// Writing `m` newline-terminated short lines to a fresh writer moves the
/// old rows up by `m` and shows the lines, oldest highest, above a blank
/// bottom row.
proof fn lemma_lines_on_fresh(s: WriterState, lines: Seq<Seq<u8>>)
    requires
        fresh(s),
        forall|j: int| 0 <= j < lines.len() ==> short_printable(#[trigger] lines[j]),
    ensures
        fresh(put_text(s, lines_text(lines))),
        put_text(s, lines_text(lines)).color == s.color,
        forall|r: int|
            0 <= r < BUFFER_HEIGHT - 1 ==> #[trigger] put_text(s, lines_text(lines)).grid[r] == (if r
                >= BUFFER_HEIGHT - 1 - lines.len() {
                padded(lines[lines.len() - (BUFFER_HEIGHT - 1) + r], s.color)
            } else {
                s.grid[r + lines.len()]
            }),
    decreases lines.len(),
{
    let m = lines.len();
    if m > 0 {
        let front = lines.drop_last();
        assert forall|j: int| 0 <= j < front.len() implies short_printable(#[trigger] front[j]) by {
            assert(front[j] == lines[j]);
        }
        lemma_lines_on_fresh(s, front);
        let t = put_text(s, lines_text(front));
        let line = lines.last();
        assert(short_printable(lines[m - 1]));
        lemma_put_text_append(s, lines_text(front), line.push(NEWLINE));
        lemma_line_on_fresh(t, line);
        let u = put_text(t, line);
        assert(line.push(NEWLINE).drop_last() =~= line);
        assert(render(NEWLINE) == NEWLINE);
        assert(put_text(t, line.push(NEWLINE)) == line_advance(u));
        lemma_text_keeps_wf(t, line);
        lemma_line_advance_fresh(u);
        let v = line_advance(u);
        assert forall|r: int| 0 <= r < BUFFER_HEIGHT - 1 implies #[trigger] v.grid[r] == (if r
            >= BUFFER_HEIGHT - 1 - m {
            padded(lines[m - (BUFFER_HEIGHT - 1) + r], s.color)
        } else {
            s.grid[r + m]
        }) by {
            assert(v.grid[r] == u.grid[r + 1]);
            if r < BUFFER_HEIGHT - 2 {
                assert(u.grid[r + 1] == t.grid[r + 1]);
                if r + 1 >= BUFFER_HEIGHT - 1 - (m - 1) {
                    assert(front[(m - 1) - (BUFFER_HEIGHT - 1) + r + 1] == lines[m - (BUFFER_HEIGHT - 1) + r]);
                }
            }
        }
    } else {
        assert(lines_text(lines) =~= Seq::<u8>::empty());
    }
}

/// Scrolling: after more lines than the grid has rows, each short,
/// printable and newline-terminated, and then a last, possibly empty,
/// partial line, the grid shows exactly the most recent full lines that fit
/// above the bottom row, oldest highest, and the partial line on the bottom
/// row. What the grid held before, and every earlier line, is gone.
pub proof fn lemma_scroll(s: WriterState, lines: Seq<Seq<u8>>, tail: Seq<u8>)
    requires
        s.wf(),
        lines.len() > BUFFER_HEIGHT,
        forall|j: int| 0 <= j < lines.len() ==> short_printable(#[trigger] lines[j]),
        short_printable(tail),
    ensures
        forall|r: int|
            0 <= r < BUFFER_HEIGHT - 1 ==> #[trigger] put_text(s, lines_text(lines) + tail).grid[r] == padded(
                lines[lines.len() - (BUFFER_HEIGHT - 1) + r],
                s.color,
            ),
        put_text(s, lines_text(lines) + tail).grid[BUFFER_HEIGHT - 1] == padded(tail, s.color),
{
    let n = lines.len();
    let first = lines.subrange(0, 1);
    let rest = lines.subrange(1, n as int);
    assert(first + rest =~= lines);
    lemma_lines_text_append(first, rest);
    assert(first.drop_last() =~= Seq::<Seq<u8>>::empty());
    assert(lines_text(first.drop_last()) =~= Seq::<u8>::empty());
    let head = lines[0].push(NEWLINE);
    assert(lines_text(first) =~= head);
    lemma_put_text_append(s, head, lines_text(rest));
    lemma_put_text_append(s, lines_text(lines), tail);
    // The first line ends in a newline, which leaves a fresh writer whatever
    // the state before.
    assert(head.drop_last() =~= lines[0]);
    assert(render(NEWLINE) == NEWLINE);
    let u = put_text(s, lines[0]);
    lemma_text_keeps_wf(s, lines[0]);
    lemma_line_advance_fresh(u);
    let f = put_text(s, head);
    assert(f == line_advance(u));
    assert forall|j: int| 0 <= j < rest.len() implies short_printable(#[trigger] rest[j]) by {
        assert(rest[j] == lines[j + 1]);
    }
    lemma_lines_on_fresh(f, rest);
    let g = put_text(f, lines_text(rest));
    lemma_line_on_fresh(g, tail);
    assert forall|r: int| 0 <= r < BUFFER_HEIGHT - 1 implies #[trigger] put_text(s, lines_text(lines) + tail).grid[r]
        == padded(lines[n - (BUFFER_HEIGHT - 1) + r], s.color) by {
        assert(g.grid[r] == padded(rest[rest.len() - (BUFFER_HEIGHT - 1) + r], s.color));
        assert(rest[rest.len() - (BUFFER_HEIGHT - 1) + r] == lines[n - (BUFFER_HEIGHT - 1) + r]);
    }
}

} // verus!
