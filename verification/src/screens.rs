use vstd::prelude::*;

use crate::machines::MachineModel;
use crate::machines::VirtualMachine;
use crate::machines::executing;
use crate::machines::lemma_executing_work;
use crate::machines::lemma_step_work;
use crate::machines::safe_steps;
use crate::machines::step;
use crate::machines::wf_machine;
use crate::machines::work;

verus! {

/// Columns of the screen.
pub const SCREEN_WIDTH: usize = 40;

/// Rows of the screen.
pub const SCREEN_HEIGHT: usize = 6;

/// A single pixel on the screen: lit or dark.
#[derive(Debug, Clone, Copy, PartialEq, Eq, Structural)]
pub enum Pixel {
    Lit,
    Dark,
}

/// The character a pixel shows on the rendered screen.
pub open spec fn pixel_char(p: Pixel) -> char {
    match p {
        Pixel::Lit => '#',
        Pixel::Dark => '.',
    }
}

impl Pixel {
    /// The character this pixel shows on the rendered screen.
    pub fn as_char(&self) -> (c: char)
        ensures
            c == pixel_char(*self),
    {
        match self {
            Pixel::Lit => '#',
            Pixel::Dark => '.',
        }
    }
}

/// Mathematical state of the screen: the machine that drives it, the
/// column of the sprite's centre, and the pixel grid in row-major order.
#[verifier::ext_equal]
pub ghost struct ScreenModel {
    pub machine: MachineModel,
    pub sprite: int,
    pub pixels: Seq<Pixel>,
}

/// The three-pixel-wide sprite centred on `sprite` covers `column`.
pub open spec fn sprite_covers(sprite: int, column: int) -> bool {
    sprite - 1 <= column <= sprite + 1
}

/// The screen after sampling one pixel, before the machine cycles.
///
/// The pixel index is the number of the cycle about to run, made
/// zero-based.  An index beyond the grid is skipped without effect; inside
/// the grid, the pixel is lit exactly when the sprite covers its column.
pub open spec fn light_spec(s: ScreenModel) -> ScreenModel
    recommends
        s.machine.ticks >= 1,
{
    let index = s.machine.ticks - 1;
    if index >= SCREEN_WIDTH * SCREEN_HEIGHT {
        s
    } else {
        let column = index % (SCREEN_WIDTH as int);
        if sprite_covers(s.sprite, column) {
            ScreenModel { machine: s.machine, sprite: s.sprite, pixels: s.pixels.update(index, Pixel::Lit) }
        } else {
            s
        }
    }
}

/// One refresh iteration: sample the pixel for the cycle about to run,
/// cycle the machine, then move the sprite to the new register value.
pub open spec fn tick_screen(s: ScreenModel) -> ScreenModel
    recommends
        executing(s.machine),
{
    let sampled = light_spec(s);
    let cycled = step(sampled.machine);
    ScreenModel { machine: cycled, sprite: cycled.register, pixels: sampled.pixels }
}

/// The screen after `n` refresh iterations.
pub open spec fn run_screen(s: ScreenModel, n: nat) -> ScreenModel
    decreases n,
{
    if n == 0 {
        s
    } else {
        run_screen(tick_screen(s), (n - 1) as nat)
    }
}

/// Refresh iterations track the machine's remaining work one for one.
pub proof fn lemma_run_screen_work(s: ScreenModel, n: nat)
    requires
        n <= work(s.machine),
    ensures
        work(run_screen(s, n).machine) == work(s.machine) - n,
    decreases n,
{
    if n > 0 {
        lemma_executing_work(s.machine);
        lemma_step_work(s.machine);
        assert(tick_screen(s).machine == step(s.machine));
        lemma_run_screen_work(tick_screen(s), (n - 1) as nat);
    }
}

/// Refreshing is idempotent: a full refresh leaves the machine with no
/// work, so refreshing the result again changes nothing — the grid (and
/// all the rest of the screen state) comes out identical both times.
pub proof fn lemma_refresh_idempotent(s: ScreenModel)
    ensures
        ({
            let refreshed = run_screen(s, work(s.machine));
            run_screen(refreshed, work(refreshed.machine)) == refreshed
        }),
{
    lemma_run_screen_work(s, work(s.machine));
}

/// One rendered row: the characters of row `row`, then a line break.
pub open spec fn render_row(pixels: Seq<Pixel>, row: int) -> Seq<char> {
    Seq::new(SCREEN_WIDTH as nat, |c: int| pixel_char(pixels[row * (SCREEN_WIDTH as int) + c])).push('\n')
}

/// The rendered rows from `row` to the bottom of the screen.
pub open spec fn render_rows_from(pixels: Seq<Pixel>, row: int) -> Seq<char>
    decreases SCREEN_HEIGHT as int - row,
{
    if row < 0 || row >= SCREEN_HEIGHT as int {
        Seq::empty()
    } else {
        render_row(pixels, row) + render_rows_from(pixels, row + 1)
    }
}

/// The full rendering of a pixel grid: every row as its characters,
/// each row closed by a line break.
pub open spec fn render_spec(pixels: Seq<Pixel>) -> Seq<char> {
    render_rows_from(pixels, 0)
}

/// A screen is a visual output controlled by an underlying machine: the
/// machine executes a program which determines when and where the screen
/// lights pixels.
#[derive(Debug)]
pub struct Screen {
    /// The machine whose register steers the sprite.
    machine: VirtualMachine,
    /// The column of the sprite's centre; the sprite is three pixels wide.
    sprite_middle: isize,
    /// The pixel grid in row-major order, all dark until lit.
    pixels: Vec<Pixel>,
}

impl View for Screen {
    type V = ScreenModel;

    closed spec fn view(&self) -> ScreenModel {
        ScreenModel {
            machine: self.machine@,
            sprite: self.sprite_middle as int,
            pixels: self.pixels@,
        }
    }
}

impl Screen {
    /// The representation invariant: a well-formed machine and a grid of
    /// exactly one pixel per screen position.
    pub open spec fn wf(&self) -> bool {
        &&& wf_machine(self@.machine)
        &&& self@.pixels.len() == SCREEN_WIDTH * SCREEN_HEIGHT
    }

    /// A new screen controlled by the given machine: every pixel dark and
    /// the sprite's centre at column one, so the sprite covers columns
    /// zero, one and two.
    pub fn new(machine: VirtualMachine) -> (screen: Self)
        requires
            machine.wf(),
        ensures
            screen.wf(),
            screen@.machine == machine@,
            screen@.sprite == 1,
            screen@.pixels.len() == SCREEN_WIDTH * SCREEN_HEIGHT,
            forall|i: int|
                0 <= i < screen@.pixels.len() ==> screen@.pixels[i] == Pixel::Dark,
    {
        let pixels: Vec<Pixel> = vec![Pixel::Dark; SCREEN_WIDTH * SCREEN_HEIGHT];
        Screen { machine, pixels, sprite_middle: 1 }
    }

    /// Samples the pixel for the cycle about to run, as [`light_spec`]
    /// describes: inside the grid the pixel is lit exactly when the sprite
    /// covers its column; an index beyond the grid is skipped and the grid
    /// is left untouched.
    fn light(&mut self)
        requires
            old(self).wf(),
        ensures
            final(self).wf(),
            final(self)@ == light_spec(old(self)@),
    {
        let screen_index = self.machine.get_ticks() - 1;
        let middle = self.sprite_middle;

        if screen_index >= SCREEN_HEIGHT * SCREEN_WIDTH {
            return ;
        }

        let row_index = screen_index % SCREEN_WIDTH;
        let row_index = row_index as isize;

        let should_light = row_index - 1 <= middle && middle <= row_index + 1;

        if should_light {
            self.pixels.set(screen_index, Pixel::Lit);
        }
        proof {
            assert(self@ =~= light_spec(old(self)@));
        }
    }

    /// Drives the owned machine to completion, sampling one pixel before
    /// every cycle and re-reading the register after it.  On a machine
    /// with no work left this is a no-op, so refreshing twice leaves the
    /// grid of the first refresh untouched.
    pub fn refresh(&mut self)
        requires
            old(self).wf(),
            safe_steps(old(self)@.machine, work(old(self)@.machine)),
        ensures
            final(self).wf(),
            final(self)@ == run_screen(old(self)@, work(old(self)@.machine)),
            !executing(final(self)@.machine),
            !executing(old(self)@.machine) ==> final(self)@ == old(self)@,
    {
        while self.machine.is_executing()
            invariant
                self.wf(),
                safe_steps(self@.machine, work(self@.machine)),
                run_screen(old(self)@, work(old(self)@.machine)) == run_screen(
                    self@,
                    work(self@.machine),
                ),
            decreases work(self@.machine),
        {
            let ghost before = self@;
            proof {
                lemma_executing_work(before.machine);
                lemma_step_work(before.machine);
            }
            self.light();
            self.machine.cycle();
            self.sprite_middle = self.machine.read_register();
            proof {
                assert(self@ =~= tick_screen(before));
            }
        }
        proof {
            lemma_executing_work(self@.machine);
        }
    }

    /// Renders the grid: `SCREEN_HEIGHT` rows of `SCREEN_WIDTH` characters
    /// each, `#` for a lit pixel and `.` for a dark one, every row closed
    /// by a line break.  Reads nothing but the grid and changes nothing.
    pub fn render(&self) -> (out: String)
        requires
            self.wf(),
        ensures
            out@ == render_spec(self@.pixels),
    {
        let mut out = String::new();
        let mut row: usize = 0;
        proof {
            assert(out@ + render_rows_from(self@.pixels, 0) =~= render_spec(self@.pixels));
        }
        while row < SCREEN_HEIGHT
            invariant
                self.wf(),
                row <= SCREEN_HEIGHT,
                out@ + render_rows_from(self@.pixels, row as int) == render_spec(self@.pixels),
            decreases SCREEN_HEIGHT - row,
        {
            let ghost p = self@.pixels;
            let ghost w = SCREEN_WIDTH as int;
            let ghost row_base = out@;
            let mut column: usize = 0;
            while column < SCREEN_WIDTH
                invariant
                    self.wf(),
                    p == self@.pixels,
                    w == SCREEN_WIDTH as int,
                    row < SCREEN_HEIGHT,
                    column <= SCREEN_WIDTH,
                    out@ == row_base + Seq::new(
                        column as nat,
                        |c: int| pixel_char(p[row * w + c]),
                    ),
                decreases SCREEN_WIDTH - column,
            {
                let index = row * SCREEN_WIDTH + column;
                let lit = match self.pixels[index] {
                    Pixel::Lit => true,
                    Pixel::Dark => false,
                };
                let ghost prev = out@;
                if lit {
                    out.append("#");
                } else {
                    out.append(".");
                }
                proof {
                    reveal_strlit("#");
                    reveal_strlit(".");
                    assert(out@ =~= row_base + Seq::new(
                        (column + 1) as nat,
                        |c: int| pixel_char(p[row * w + c]),
                    ));
                }
                column = column + 1;
            }
            out.append("\n");
            proof {
                reveal_strlit("\n");
                assert(out@ =~= row_base + render_row(p, row as int));
                assert(row_base + (render_row(p, row as int) + render_rows_from(
                    p,
                    row as int + 1,
                )) =~= (row_base + render_row(p, row as int)) + render_rows_from(
                    p,
                    row as int + 1,
                ));
            }
            row = row + 1;
        }
        proof {
            assert(out@ + render_rows_from(self@.pixels, SCREEN_HEIGHT as int) =~= out@);
        }
        out
    }
}

} // verus!
