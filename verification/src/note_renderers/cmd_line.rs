//! A tuner display of one line: the note between its neighbours, with a
//! cursor that shows how far off the pitch is.
use crate::common::constants::{MAX_CENTS_OFFSET, NUM_CENTS_BETWEEN_NOTES};
use crate::common::fixed::{div_round, lemma_round_div_bounds, round_div};
use crate::note::note_detection_result::NoteDetection;
use vstd::prelude::*;

verus! {

/// Where the parts of the line stand, counted in columns from the left.
pub struct TunerLayout {
    /// Position at which pitch is considered in tune but is technically
    /// still flat.
    pub left_tick_pos: u16,
    /// Position at which pitch is considered in tune but is technically
    /// still sharp.
    pub right_tick_pos: u16,
    pub note_name_pos: u16,
    pub cursor_pos: u16,
    pub previous_note_pos: u16,
    pub next_note_pos: u16,
    pub width: u16,
}

/// `x` limited to the range of `u16`.
pub open spec fn clamp_u16(x: int) -> int {
    if x < 0 {
        0
    } else if x > u16::MAX {
        u16::MAX as int
    } else {
        x
    }
}

/// The layout for a terminal of `width` columns and a pitch that is
/// `cents_offset` thousandths of a cent off: the note in the middle, the
/// ticks where the pitch begins to be out of tune, mirrored about the
/// note, and the cursor a column nearer to the left for every part of a
/// semitone that the pitch is sharp.
pub open spec fn layout_for(cents_offset: int, width: int) -> TunerLayout {
    let note_name_pos = width / 2;
    let left_tick_pos = round_div(
        note_name_pos * (NUM_CENTS_BETWEEN_NOTES - MAX_CENTS_OFFSET),
        NUM_CENTS_BETWEEN_NOTES as int,
    );
    TunerLayout {
        left_tick_pos: left_tick_pos as u16,
        right_tick_pos: (note_name_pos + (note_name_pos - left_tick_pos)) as u16,
        note_name_pos: note_name_pos as u16,
        cursor_pos: clamp_u16(
            round_div(
                note_name_pos * (NUM_CENTS_BETWEEN_NOTES - cents_offset),
                NUM_CENTS_BETWEEN_NOTES as int,
            ),
        ) as u16,
        previous_note_pos: 0,
        next_note_pos: (width - 1) as u16,
        width: width as u16,
    }
}

/// The line without the cursor: the previous note, blanks up to the left
/// tick, dots up to the note, the note, dots up to the right tick, blanks
/// up to the next note, the next note.
pub open spec fn plain_line(
    layout: TunerLayout,
    previous_note_name: Seq<char>,
    note_name: Seq<char>,
    next_note_name: Seq<char>,
) -> Seq<char> {
    previous_note_name + Seq::new(
        (layout.left_tick_pos - layout.previous_note_pos) as nat,
        |i: int| ' ',
    ) + Seq::new((layout.note_name_pos - layout.left_tick_pos) as nat, |i: int| '.') + note_name
        + Seq::new((layout.right_tick_pos - layout.note_name_pos) as nat, |i: int| '.') + Seq::new(
        (layout.next_note_pos - layout.right_tick_pos) as nat,
        |i: int| ' ',
    ) + next_note_name
}

/// `String::push`: the character is appended.
#[verifier::external_body]
fn push_char(text: &mut String, c: char)
    ensures
        final(text)@ == old(text)@.push(c),
{
    text.push(c)
}

impl TunerLayout {
    /// The parts stand in order from left to right.
    pub open spec fn well_formed(&self) -> bool {
        &&& self.previous_note_pos <= self.left_tick_pos
        &&& self.left_tick_pos <= self.note_name_pos
        &&& self.note_name_pos <= self.right_tick_pos
        &&& self.right_tick_pos <= self.next_note_pos
    }

    /// The layout for a terminal of `terminal_width` columns.
    pub fn new(note: &NoteDetection, terminal_width: u16) -> (layout: Self)
        requires
            terminal_width >= 1,
        ensures
            layout == layout_for(note.cents_offset as int, terminal_width as int),
            layout.well_formed(),
    {
        let note_name_pos = terminal_width / 2;
        let left = div_round((note_name_pos as i128) * 90_000, 100_000);
        proof {
            lemma_round_div_bounds(note_name_pos * 90_000, 100_000);
        }
        let left_tick_pos = left as u16;
        let right_tick_pos = note_name_pos + (note_name_pos - left_tick_pos);
        let remaining: i128 = 100_000 - (note.cents_offset as i128);
        assert(-0x1_0000_0000_0000_0000_0000 <= note_name_pos * remaining
            <= 0x1_0000_0000_0000_0000_0000) by (nonlinear_arith)
            requires
                0 <= note_name_pos <= 0x1_0000,
                -0x1_0000_0000_0000_0000 <= remaining <= 0x1_0000_0000_0000_0000,
        ;
        let scaled: i128 = (note_name_pos as i128) * remaining;
        let cursor = div_round(scaled, 100_000);
        let cursor_pos: u16 = if cursor < 0 {
            0
        } else if cursor > u16::MAX as i128 {
            u16::MAX
        } else {
            cursor as u16
        };
        TunerLayout {
            left_tick_pos,
            right_tick_pos,
            note_name_pos,
            cursor_pos,
            previous_note_pos: 0,
            next_note_pos: terminal_width - 1,
            width: terminal_width,
        }
    }

    /// The line to show: the plain line with a bar for the cursor in place
    /// of whatever stood in its column.
    pub fn build(&self, previous_note_name: &str, note_name: &str, next_note_name: &str) -> (line:
        String)
        requires
            self.well_formed(),
            self.cursor_pos < plain_line(
                *self,
                previous_note_name@,
                note_name@,
                next_note_name@,
            ).len(),
        ensures
            line@ == plain_line(*self, previous_note_name@, note_name@, next_note_name@).update(
                self.cursor_pos as int,
                '|',
            ),
    {
        let mut chars: Vec<char> = Vec::new();
        append_text(&mut chars, previous_note_name);
        append_repeated(&mut chars, ' ', (self.left_tick_pos - self.previous_note_pos) as usize);
        append_repeated(&mut chars, '.', (self.note_name_pos - self.left_tick_pos) as usize);
        append_text(&mut chars, note_name);
        append_repeated(&mut chars, '.', (self.right_tick_pos - self.note_name_pos) as usize);
        append_repeated(&mut chars, ' ', (self.next_note_pos - self.right_tick_pos) as usize);
        append_text(&mut chars, next_note_name);
        assert(chars@ =~= Seq::<char>::empty() + plain_line(
            *self,
            previous_note_name@,
            note_name@,
            next_note_name@,
        ));
        chars.set(self.cursor_pos as usize, '|');
        let mut s = String::new();
        let mut i: usize = 0;
        while i < chars.len()
            invariant
                i <= chars.len(),
                s@ == chars@.subrange(0, i as int),
            decreases chars.len() - i,
        {
            push_char(&mut s, chars[i]);
            assert(chars@.subrange(0, i as int).push(chars[i as int]) =~= chars@.subrange(
                0,
                i + 1,
            ));
            i = i + 1;
        }
        assert(chars@.subrange(0, chars.len() as int) =~= chars@);
        s
    }
}

fn append_text(chars: &mut Vec<char>, text: &str)
    ensures
        final(chars)@ == old(chars)@ + text@,
{
    let n = text.unicode_len();
    let mut i: usize = 0;
    while i < n
        invariant
            i <= n,
            n == text@.len(),
            chars@ == old(chars)@ + text@.subrange(0, i as int),
        decreases n - i,
    {
        let ghost before = chars@;
        chars.push(text.get_char(i));
        assert(chars@ =~= old(chars)@ + text@.subrange(0, i + 1));
        i = i + 1;
    }
    assert(text@.subrange(0, n as int) =~= text@);
}

fn append_repeated(chars: &mut Vec<char>, c: char, count: usize)
    ensures
        final(chars)@ == old(chars)@ + Seq::new(count as nat, |i: int| c),
{
    let mut i: usize = 0;
    while i < count
        invariant
            i <= count,
            chars@ == old(chars)@ + Seq::new(i as nat, |j: int| c),
        decreases count - i,
    {
        chars.push(c);
        assert(chars@ =~= old(chars)@ + Seq::new((i + 1) as nat, |j: int| c));
        i = i + 1;
    }
}

/// Shows the note between its neighbours on a line as wide as the
/// terminal, and keeps the size that the terminal had before.
pub struct CmdLineNoteRenderer {
    cols: u16,
    rows: u16,
    original_cols: Option<u16>,
    original_rows: Option<u16>,
}

impl CmdLineNoteRenderer {
    /// The size of the display, columns first.
    pub closed spec fn size(&self) -> (u16, u16) {
        (self.cols, self.rows)
    }

    /// The size that the terminal had before, columns first, once it is
    /// known.
    pub closed spec fn original_size(&self) -> Option<(u16, u16)> {
        match (self.original_cols, self.original_rows) {
            (Some(cols), Some(rows)) => Some((cols, rows)),
            _ => None,
        }
    }

    /// A renderer for a display of the given size.
    pub fn new_with_rows_and_columns(cols: u16, rows: u16) -> (renderer: Self)
        ensures
            renderer.size() == (cols, rows),
            renderer.original_size().is_none(),
    {
        Self { cols, rows, original_cols: None, original_rows: None }
    }

    /// The size of the display, columns first.
    pub fn get_size(&self) -> (size: (u16, u16))
        ensures
            size == self.size(),
    {
        (self.cols, self.rows)
    }

    /// The line that shows a note: the note between its neighbours, laid
    /// out over the width of the display, with the cursor.
    pub fn note_line(&self, note: &NoteDetection) -> (line: String)
        requires
            self.size().0 >= 1,
            -50_000 <= note.cents_offset <= 50_000,
        ensures
            ({
                let layout = layout_for(note.cents_offset as int, self.size().0 as int);
                line@ == plain_line(
                    layout,
                    note.previous_note_name.name(),
                    note.note_name.name(),
                    note.next_note_name.name(),
                ).update(layout.cursor_pos as int, '|')
            }),
    {
        let tuner_layout = TunerLayout::new(note, self.cols);
        let previous = note.previous_note_name.to_string();
        let name = note.note_name.to_string();
        let next = note.next_note_name.to_string();
        proof {
            let pos = tuner_layout.note_name_pos as int;
            let remaining = 100_000 - note.cents_offset;
            lemma_round_div_bounds(pos * remaining, 100_000);
            assert(0 <= pos * remaining <= pos * 150_000) by (nonlinear_arith)
                requires
                    0 <= pos,
                    50_000 <= remaining <= 150_000,
            ;
            assert(previous@.len() >= 1 && name@.len() >= 1 && next@.len() >= 1);
        }
        tuner_layout.build(previous.as_str(), name.as_str(), next.as_str())
    }

    /// Keeps the size that the terminal has as input starts.
    pub fn input_start(&mut self, cols: u16, rows: u16)
        ensures
            final(self).size() == old(self).size(),
            final(self).original_size() == Some((cols, rows)),
    {
        self.original_cols = Some(cols);
        self.original_rows = Some(rows);
    }

    /// The size to give back to the terminal as input ends, if input has
    /// started.
    pub fn input_end(&self) -> (size: Option<(u16, u16)>)
        ensures
            size == self.original_size(),
    {
        match (self.original_cols, self.original_rows) {
            (Some(cols), Some(rows)) => Some((cols, rows)),
            _ => None,
        }
    }
}

} // verus!
