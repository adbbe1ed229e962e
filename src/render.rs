use vstd::prelude::*;

use crate::world::World;

verus! {

/// The glyph of a cell: `X` when it is alive, a space when it is dead.
pub open spec fn glyph(alive: bool) -> char {
    if alive {
        'X'
    } else {
        ' '
    }
}

/// Relies on `String::push`: it appends the character at the end.
#[verifier::external_body]
fn push_char(s: &mut String, c: char)
    ensures
        final(s)@ == old(s)@.push(c),
{
    s.push(c);
}

impl World {
    /// The first `x` glyphs of row `y`.
    pub open spec fn row_prefix(&self, y: int, x: int) -> Seq<char> {
        Seq::new(x as nat, |i: int| glyph(self.at(i, y).value))
    }

    /// Row `y` as text: one glyph per column, then a line break.
    pub open spec fn row_text(&self, y: int) -> Seq<char> {
        self.row_prefix(y, self.width as int).push('\n')
    }

    /// The text of the first `rows` rows, top to bottom.
    pub open spec fn rows_text(&self, rows: nat) -> Seq<char>
        decreases rows,
    {
        if rows == 0 {
            seq![]
        } else {
            self.rows_text((rows - 1) as nat) + self.row_text(rows - 1)
        }
    }

    /// The whole grid as text: `height` lines of `width` glyphs, each ended
    /// by a line break, and nothing else.
    pub open spec fn rendered(&self) -> Seq<char> {
        self.rows_text(self.height as nat)
    }

    /// Draws the grid as text.
    pub fn render(&self) -> (r: String)
        requires
            self.wf(),
        ensures
            r@ == self.rendered(),
    {
        let mut out = String::new();
        let mut y: usize = 0;
        while y < self.height
            invariant
                self.wf(),
                y <= self.height,
                out@ == self.rows_text(y as nat),
            decreases self.height - y,
        {
            let mut x: usize = 0;
            while x < self.width
                invariant
                    self.wf(),
                    y < self.height,
                    x <= self.width,
                    out@ == self.rows_text(y as nat) + self.row_prefix(y as int, x as int),
                decreases self.width - x,
            {
                let c = self.cell_at(x, y);
                let g = if c.value {
                    'X'
                } else {
                    ' '
                };
                push_char(&mut out, g);
                proof {
                    assert(self.row_prefix(y as int, x + 1) =~= self.row_prefix(
                        y as int,
                        x as int,
                    ).push(g));
                    assert(self.rows_text(y as nat) + self.row_prefix(y as int, x + 1) =~= (
                    self.rows_text(y as nat) + self.row_prefix(y as int, x as int)).push(g));
                }
                x = x + 1;
            }
            push_char(&mut out, '\n');
            proof {
                assert(self.rows_text((y + 1) as nat) =~= self.rows_text(y as nat) + self.row_text(
                    y as int,
                ));
            }
            y = y + 1;
        }
        out
    }
}

} // verus!
