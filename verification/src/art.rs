//! The animated "matrix rain" side panel.

use vstd::prelude::*;
use std::time::Instant;
use crate::backend::owned;
use crate::clock::{elapsed_since, instant_now, since_epoch, system_now};

verus! {

/// Nanoseconds since the Unix epoch, truncated to 64 bits; 0 for a clock
/// that reads before the epoch.
fn clock_seed() -> u64 {
    let t = system_now();
    match since_epoch(&t) {
        Some(d) => d.as_nanos() as u64,
        None => 0,
    }
}

/// One rendered frame of the panel.
#[derive(Debug)]
pub struct ArtFrame {
    pub title: String,
    pub lines: Vec<String>,
    pub palette: usize,
}

/// Number of glyphs and banners the panel cycles through.
pub const CHARSET_LEN: usize = 24;
pub const BANNER_COUNT: usize = 5;
pub const PALETTE_COUNT: usize = 5;

pub open spec fn charset() -> Seq<char> {
    seq!['0', '1', 'a', 'b', 'c', 'd', 'e', 'f', 'X', 'Y', 'Z', '$', '#', '@', '*', '+', '=', '-', '<', '>', '[', ']', '{', '}']
}

fn charset_at(i: usize) -> (c: char)
    requires
        i < CHARSET_LEN,
    ensures
        c == charset()[i as int],
{
    let cs = ['0', '1', 'a', 'b', 'c', 'd', 'e', 'f', 'X', 'Y', 'Z', '$', '#', '@', '*', '+', '=', '-', '<', '>', '[', ']', '{', '}'];
    assert(cs@ =~= charset());
    cs[i]
}

pub open spec fn banner_spec(i: int) -> Seq<char> {
    if i == 0 { "Matrix Rain"@ } else if i == 1 { "Neon Stream"@ } else if i == 2 { "Cyber Installer"@ }
    else if i == 3 { "Arch Velocity"@ } else { "Quantum Packages"@ }
}

fn banner_at(i: usize) -> (s: &'static str)
    ensures
        s@ == banner_spec(i as int),
{
    if i == 0 { "Matrix Rain" } else if i == 1 { "Neon Stream" } else if i == 2 { "Cyber Installer" }
    else if i == 3 { "Arch Velocity" } else { "Quantum Packages" }
}

/// The linear congruential generator behind the animation.
pub open spec fn lcg(s: u64) -> u64 {
    s.wrapping_mul(6364136223846793005).wrapping_add(1)
}

/// The 32 bits a generator step yields.
pub open spec fn out(s: u64) -> u32 {
    (s >> 32u64) as u32
}

/// A column that restarts above the top: its head and the length of its trail.
pub open spec fn new_column(s: u64, h: int) -> (i32, i32, u64) {
    let s1 = lcg(s);
    let s2 = lcg(s1);
    (-((out(s1) % ((h + 1) as u32)) as int) as i32, (4 + (out(s2) % 10) as int) as i32, s2)
}

/// `n` fresh columns for height `h`.
pub open spec fn gen_cols(s: u64, n: int, h: int) -> (Seq<i32>, Seq<i32>, u64)
    decreases n,
{
    if n <= 0 {
        (seq![], seq![], s)
    } else {
        let (d, t, s1) = gen_cols(s, n - 1, h);
        let (start, trail, s2) = new_column(s1, h);
        (d.push(start), t.push(trail), s2)
    }
}

/// The first `n` columns after one animation step at height `h`: each head
/// moves down one row, and a column whose trail left the screen restarts.
pub open spec fn advance_cols(d: Seq<i32>, t: Seq<i32>, s: u64, n: int, h: int) -> (Seq<i32>, Seq<i32>, u64)
    decreases n,
{
    if n <= 0 {
        (d, t, s)
    } else {
        let (d1, t1, s1) = advance_cols(d, t, s, n - 1, h);
        let moved = d1[n - 1] + 1;
        if moved - t1[n - 1] > h {
            let (start, trail, s2) = new_column(s1, h);
            (d1.update(n - 1, start), t1.update(n - 1, trail), s2)
        } else {
            (d1.update(n - 1, moved as i32), t1, s1)
        }
    }
}

/// The glyph of row `y` in a column: the head is always drawn, a trail cell
/// three times out of four, everything else is blank.
pub open spec fn cell(drop: int, trail: int, y: int, s: u64) -> (char, u64) {
    if y == drop {
        let s1 = lcg(s);
        (charset()[(out(s1) % 24) as int], s1)
    } else if y < drop && y >= drop - trail {
        let s1 = lcg(s);
        if out(s1) % 100 < 75 {
            let s2 = lcg(s1);
            (charset()[(out(s2) % 24) as int], s2)
        } else {
            (' ', s1)
        }
    } else {
        (' ', s)
    }
}

pub open spec fn row_cells(d: Seq<i32>, t: Seq<i32>, y: int, n: int, s: u64) -> (Seq<char>, u64)
    decreases n,
{
    if n <= 0 {
        (seq![], s)
    } else {
        let (r, s1) = row_cells(d, t, y, n - 1, s);
        let (c, s2) = cell(d[n - 1] as int, t[n - 1] as int, y, s1);
        (r.push(c), s2)
    }
}

pub open spec fn grid(d: Seq<i32>, t: Seq<i32>, w: int, n: int, s: u64) -> (Seq<Seq<char>>, u64)
    decreases n,
{
    if n <= 0 {
        (seq![], s)
    } else {
        let (g, s1) = grid(d, t, w, n - 1, s);
        let (r, s2) = row_cells(d, t, n - 1, w, s1);
        (g.push(r), s2)
    }
}

/// The animation state as plain values.
pub struct ArtModel {
    pub drops: Seq<i32>,
    pub trails: Seq<i32>,
    pub seed: u64,
    pub palette: int,
    pub banner: int,
    /// When the columns last moved.
    pub last_step: Instant,
    /// When the palette and banner last changed.
    pub last_theme: Instant,
}

pub struct MatrixArt {
    drops: Vec<i32>,
    trails: Vec<i32>,
    seed: u64,
    last_step: Instant,
    last_theme: Instant,
    palette: usize,
    banner: usize,
}

impl View for MatrixArt {
    type V = ArtModel;

    closed spec fn view(&self) -> ArtModel {
        ArtModel {
            drops: self.drops@,
            trails: self.trails@,
            seed: self.seed,
            palette: self.palette as int,
            banner: self.banner as int,
            last_step: self.last_step,
            last_theme: self.last_theme,
        }
    }
}

pub open spec fn cols_ok(d: Seq<i32>, t: Seq<i32>) -> bool {
    &&& d.len() == t.len()
    &&& forall|i: int| 0 <= i < d.len() ==> -65536 <= #[trigger] d[i] <= 65550
    &&& forall|i: int| 0 <= i < t.len() ==> 4 <= #[trigger] t[i] <= 13
}

impl ArtModel {
    pub open spec fn wf(self) -> bool {
        &&& cols_ok(self.drops, self.trails)
        &&& 0 <= self.palette < PALETTE_COUNT
        &&& 0 <= self.banner < BANNER_COUNT
    }
}

/// The state after `frame_at`: columns sized to the width, theme and step
/// applied when due.
pub open spec fn frame_state(m: ArtModel, w: int, h: int, theme_due: bool, step_due: bool) -> ArtModel {
    let (d0, t0, s0) = if m.drops.len() == w { (m.drops, m.trails, m.seed) } else { gen_cols(m.seed, w, h) };
    let (palette, banner) = if theme_due { ((m.palette + 1) % 5, (m.banner + 1) % 5) } else { (m.palette, m.banner) };
    let (d1, t1, s1) = if step_due { advance_cols(d0, t0, s0, w, h) } else { (d0, t0, s0) };
    ArtModel { drops: d1, trails: t1, seed: grid(d1, t1, w, h, s1).1, palette, banner, last_step: m.last_step, last_theme: m.last_theme }
}

/// The rows drawn by `frame_at`.
pub open spec fn frame_rows(m: ArtModel, w: int, h: int, theme_due: bool, step_due: bool) -> Seq<Seq<char>> {
    let (d0, t0, s0) = if m.drops.len() == w { (m.drops, m.trails, m.seed) } else { gen_cols(m.seed, w, h) };
    let (d1, t1, s1) = if step_due { advance_cols(d0, t0, s0, w, h) } else { (d0, t0, s0) };
    grid(d1, t1, w, h, s1).0
}

pub open spec fn clamp4(x: u16) -> int {
    if x < 4 { 4 } else { x as int }
}

proof fn lemma_gen_cols(s: u64, n: int, h: int)
    requires
        0 <= n,
        4 <= h <= 65535,
    ensures
        gen_cols(s, n, h).0.len() == n,
        cols_ok(gen_cols(s, n, h).0, gen_cols(s, n, h).1),
        forall|i: int| 0 <= i < n ==> -65535 <= #[trigger] gen_cols(s, n, h).0[i] <= 0,
    decreases n,
{
    if n > 0 {
        lemma_gen_cols(s, n - 1, h);
    }
}

proof fn lemma_advance_cols(d: Seq<i32>, t: Seq<i32>, s: u64, n: int, h: int)
    requires
        cols_ok(d, t),
        0 <= n <= d.len(),
        4 <= h <= 65535,
        forall|i: int| 0 <= i < d.len() ==> #[trigger] d[i] <= 65549,
    ensures
        cols_ok(advance_cols(d, t, s, n, h).0, advance_cols(d, t, s, n, h).1),
        advance_cols(d, t, s, n, h).0.len() == d.len(),
        forall|i: int| n <= i < d.len() ==> #[trigger] advance_cols(d, t, s, n, h).0[i] == d[i],
        forall|i: int| 0 <= i < d.len() ==> #[trigger] advance_cols(d, t, s, n, h).0[i] <= 65549,
    decreases n,
{
    if n > 0 {
        lemma_advance_cols(d, t, s, n - 1, h);
    }
}

impl MatrixArt {
    pub closed spec fn wf(&self) -> bool {
        self@.wf() && forall|i: int| 0 <= i < self@.drops.len() ==> #[trigger] self@.drops[i] <= 65549
    }

    /// A panel seeded from the clock.
    pub fn new() -> (r: Self)
        ensures
            r.wf(),
            r@.drops.len() == 0,
            r@.palette == 0,
            r@.banner == 0,
    {
        MatrixArt {
            drops: Vec::new(),
            trails: Vec::new(),
            seed: clock_seed(),
            last_step: instant_now(),
            last_theme: instant_now(),
            palette: 0,
            banner: 0,
        }
    }

    fn rand_u32(&mut self) -> (r: u32)
        ensures
            final(self)@ == (ArtModel { seed: lcg(old(self)@.seed), ..old(self)@ }),
            r == out(lcg(old(self)@.seed)),
            final(self).wf() == old(self).wf(),
    {
        self.seed = self.seed.wrapping_mul(6364136223846793005).wrapping_add(1);
        (self.seed >> 32) as u32
    }

    fn rand_char(&mut self) -> (c: char)
        ensures
            final(self)@ == (ArtModel { seed: lcg(old(self)@.seed), ..old(self)@ }),
            c == charset()[(out(lcg(old(self)@.seed)) % 24) as int],
            final(self).wf() == old(self).wf(),
    {
        let r = self.rand_u32();
        let idx = (r % 24) as usize;
        charset_at(idx)
    }

    fn ensure_size(&mut self, width: usize, height: usize)
        requires
            old(self).wf(),
            4 <= height <= 65535,
        ensures
            final(self).wf(),
            final(self)@.palette == old(self)@.palette,
            final(self)@.banner == old(self)@.banner,
            final(self)@.last_step == old(self)@.last_step,
            final(self)@.last_theme == old(self)@.last_theme,
            final(self)@.drops.len() == width,
            old(self)@.drops.len() == width ==> final(self)@ == old(self)@,
            old(self)@.drops.len() != width ==> ({
                let g = gen_cols(old(self)@.seed, width as int, height as int);
                final(self)@.drops == g.0 && final(self)@.trails == g.1 && final(self)@.seed == g.2
            }),
    {
        if self.drops.len() == width {
            return;
        }
        let ghost s0 = self.seed;
        self.drops.clear();
        self.trails.clear();
        proof { lemma_gen_cols(s0, width as int, height as int); }
        let mut x: usize = 0;
        while x < width
            invariant
                x <= width,
                4 <= height <= 65535,
                0 <= self@.palette < PALETTE_COUNT,
                0 <= self@.banner < BANNER_COUNT,
                self@.palette == old(self)@.palette,
                self@.banner == old(self)@.banner,
                self@.last_step == old(self)@.last_step,
                self@.last_theme == old(self)@.last_theme,
                self@.drops == gen_cols(s0, x as int, height as int).0,
                self@.trails == gen_cols(s0, x as int, height as int).1,
                self@.seed == gen_cols(s0, x as int, height as int).2,
                cols_ok(gen_cols(s0, width as int, height as int).0, gen_cols(s0, width as int, height as int).1),
            decreases width - x,
        {
            proof { lemma_gen_cols(s0, x + 1, height as int); }
            let r1 = self.rand_u32();
            let start = -((r1 % (height as u32 + 1)) as i32);
            let r2 = self.rand_u32();
            let trail = 4 + (r2 % 10) as i32;
            self.drops.push(start);
            self.trails.push(trail);
            x = x + 1;
        }
        proof { lemma_gen_cols(s0, width as int, height as int); }
    }

    fn advance(&mut self, height: i32)
        requires
            old(self).wf(),
            4 <= height <= 65535,
        ensures
            final(self).wf(),
            final(self)@.palette == old(self)@.palette,
            final(self)@.banner == old(self)@.banner,
            final(self)@.last_step == old(self)@.last_step,
            final(self)@.last_theme == old(self)@.last_theme,
            final(self)@.drops.len() == old(self)@.drops.len(),
            ({
                let a = advance_cols(old(self)@.drops, old(self)@.trails, old(self)@.seed, old(self)@.drops.len() as int, height as int);
                final(self)@.drops == a.0 && final(self)@.trails == a.1 && final(self)@.seed == a.2
            }),
    {
        let ghost m0 = self@;
        proof { lemma_advance_cols(m0.drops, m0.trails, m0.seed, m0.drops.len() as int, height as int); }
        let mut i: usize = 0;
        while i < self.drops.len()
            invariant
                4 <= height <= 65535,
                m0.wf(),
                forall|k: int| 0 <= k < m0.drops.len() ==> #[trigger] m0.drops[k] <= 65549,
                i <= self@.drops.len(),
                self@.drops.len() == m0.drops.len(),
                self@.palette == m0.palette,
                self@.banner == m0.banner,
                self@.last_step == m0.last_step,
                self@.last_theme == m0.last_theme,
                self@.drops == advance_cols(m0.drops, m0.trails, m0.seed, i as int, height as int).0,
                self@.trails == advance_cols(m0.drops, m0.trails, m0.seed, i as int, height as int).1,
                self@.seed == advance_cols(m0.drops, m0.trails, m0.seed, i as int, height as int).2,
            decreases self@.drops.len() - i,
        {
            proof {
                lemma_advance_cols(m0.drops, m0.trails, m0.seed, i as int, height as int);
                lemma_advance_cols(m0.drops, m0.trails, m0.seed, i + 1, height as int);
            }
            let moved = self.drops[i] + 1;
            if moved - self.trails[i] > height {
                let r1 = self.rand_u32();
                let start = -((r1 % (height as u32 + 1)) as i32);
                let r2 = self.rand_u32();
                let trail = 4 + (r2 % 10) as i32;
                self.drops.set(i, start);
                self.trails.set(i, trail);
            } else {
                self.drops.set(i, moved);
            }
            i = i + 1;
        }
        proof { lemma_advance_cols(m0.drops, m0.trails, m0.seed, m0.drops.len() as int, height as int); }
    }
}


impl MatrixArt {
    fn cell_at(&mut self, drop: i32, trail: i32, y: i32) -> (c: char)
        requires
            -65536 <= drop <= 65550,
            4 <= trail <= 13,
        ensures
            final(self)@ == (ArtModel { seed: cell(drop as int, trail as int, y as int, old(self)@.seed).1, ..old(self)@ }),
            c == cell(drop as int, trail as int, y as int, old(self)@.seed).0,
            final(self).wf() == old(self).wf(),
    {
        if y == drop {
            self.rand_char()
        } else if y < drop && y >= drop - trail {
            if (self.rand_u32() % 100) < 75 {
                self.rand_char()
            } else {
                ' '
            }
        } else {
            ' '
        }
    }

    /// Draws a frame of `width` x `height` cells (at least 4 x 4), first
    /// switching palette and banner when `theme_due` and moving the columns
    /// one row when `step_due`.
    pub fn frame_at(&mut self, width: u16, height: u16, theme_due: bool, step_due: bool) -> (r: ArtFrame)
        requires
            old(self).wf(),
        ensures
            final(self).wf(),
            final(self)@ == frame_state(old(self)@, clamp4(width), clamp4(height), theme_due, step_due),
            crate::text::strings_view(r.lines@) == frame_rows(old(self)@, clamp4(width), clamp4(height), theme_due, step_due),
            r.title@ == banner_spec(final(self)@.banner),
            r.palette == final(self)@.palette,
            r.palette < PALETTE_COUNT,
            0 <= final(self)@.banner < BANNER_COUNT,
    {
        let w: usize = if width < 4 { 4 } else { width as usize };
        let h: usize = if height < 4 { 4 } else { height as usize };
        self.ensure_size(w, h);
        if theme_due {
            self.palette = (self.palette + 1) % 5;
            self.banner = (self.banner + 1) % 5;
        }
        if step_due {
            self.advance(h as i32);
        }
        let ghost m1 = self@;
        let mut lines: Vec<String> = Vec::new();
        let mut y: usize = 0;
        while y < h
            invariant
                self.wf(),
                y <= h <= 65535,
                m1.drops.len() == w,
                self@.drops == m1.drops,
                self@.trails == m1.trails,
                self@.palette == m1.palette,
                self@.banner == m1.banner,
                self@.last_step == m1.last_step,
                self@.last_theme == m1.last_theme,
                crate::text::strings_view(lines@) == grid(m1.drops, m1.trails, w as int, y as int, m1.seed).0,
                self@.seed == grid(m1.drops, m1.trails, w as int, y as int, m1.seed).1,
            decreases h - y,
        {
            let mut line = String::new();
            let ghost s_row = self@.seed;
            let mut x: usize = 0;
            while x < w
                invariant
                    self.wf(),
                    x <= w,
                    y < h <= 65535,
                    m1.drops.len() == w,
                    self@.drops == m1.drops,
                    self@.trails == m1.trails,
                    self@.palette == m1.palette,
                    self@.banner == m1.banner,
                    self@.last_step == m1.last_step,
                    self@.last_theme == m1.last_theme,
                    line@ == row_cells(m1.drops, m1.trails, y as int, x as int, s_row).0,
                    self@.seed == row_cells(m1.drops, m1.trails, y as int, x as int, s_row).1,
                decreases w - x,
            {
                let d = self.drops[x];
                let t = self.trails[x];
                let c = self.cell_at(d, t, y as i32);
                line.push(c);
                x = x + 1;
            }
            lines.push(line);
            proof {
                assert(crate::text::strings_view(lines@) =~= grid(m1.drops, m1.trails, w as int, y + 1, m1.seed).0);
            }
            y = y + 1;
        }
        ArtFrame { title: owned(banner_at(self.banner)), lines, palette: self.palette }
    }

    /// Draws the next frame, `theme_ms` milliseconds after the last change
    /// of palette and banner and `step_ms` after the columns last moved, the
    /// clock reading `now`: the palette and banner change once
    /// `THEME_PERIOD_MS` have passed and the columns move once
    /// `STEP_PERIOD_MS` have, each timer starting again at `now` when its
    /// change is made.
    pub fn frame_after(&mut self, width: u16, height: u16, theme_ms: u128, step_ms: u128, now: Instant) -> (r: ArtFrame)
        requires
            old(self).wf(),
        ensures
            final(self).wf(),
            after_frame(old(self)@, final(self)@, clamp4(width), clamp4(height), theme_ms, step_ms, now),
            theme_due(theme_ms) ==> final(self)@.last_theme == now,
            step_due(step_ms) ==> final(self)@.last_step == now,
            crate::text::strings_view(r.lines@) == frame_rows(old(self)@, clamp4(width), clamp4(height), theme_due(theme_ms), step_due(step_ms)),
            r.title@ == banner_spec(final(self)@.banner),
            r.palette == final(self)@.palette,
            r.palette < PALETTE_COUNT,
            0 <= final(self)@.banner < BANNER_COUNT,
    {
        let theme = is_due(theme_ms, THEME_PERIOD_MS);
        let step = is_due(step_ms, STEP_PERIOD_MS);
        let r = self.frame_at(width, height, theme, step);
        let ghost m1 = self@;
        if theme {
            self.last_theme = now;
        }
        if step {
            self.last_step = now;
        }
        assert(self@ =~= (ArtModel { last_step: self@.last_step, last_theme: self@.last_theme, ..m1 }));
        r
    }

    /// Draws the next frame by the clock, see `frame_after`: the times are
    /// those elapsed since the timers last started, read once each, and a
    /// timer that starts again starts at one reading of the clock.
    pub fn frame(&mut self, width: u16, height: u16) -> (r: ArtFrame)
        requires
            old(self).wf(),
        ensures
            final(self).wf(),
            exists|theme_ms: u128, step_ms: u128, now: Instant| {
                &&& after_frame(old(self)@, final(self)@, clamp4(width), clamp4(height), theme_ms, step_ms, now)
                &&& crate::text::strings_view(r.lines@) == frame_rows(old(self)@, clamp4(width), clamp4(height), theme_due(theme_ms), step_due(step_ms))
            },
            r.title@ == banner_spec(final(self)@.banner),
            r.palette == final(self)@.palette,
            r.palette < PALETTE_COUNT,
            0 <= final(self)@.banner < BANNER_COUNT,
    {
        let theme_ms = elapsed_since(&self.last_theme).as_millis();
        let step_ms = elapsed_since(&self.last_step).as_millis();
        let now = instant_now();
        self.frame_after(width, height, theme_ms, step_ms, now)
    }
}

/// Milliseconds between changes of palette and banner.
pub const THEME_PERIOD_MS: u64 = 10_000;

/// Milliseconds between moves of the columns.
pub const STEP_PERIOD_MS: u64 = 120;

/// Whether a change is due after `elapsed_ms` milliseconds, its period being
/// `period_ms`.
pub fn is_due(elapsed_ms: u128, period_ms: u64) -> (b: bool)
    ensures
        b == (elapsed_ms >= period_ms as u128),
{
    elapsed_ms >= period_ms as u128
}

pub open spec fn theme_due(theme_ms: u128) -> bool {
    theme_ms >= THEME_PERIOD_MS as u128
}

pub open spec fn step_due(step_ms: u128) -> bool {
    step_ms >= STEP_PERIOD_MS as u128
}

/// The panel `new` after a frame drawn from `old` with the given times and
/// the clock reading `now`: as `frame_state` gives it, each timer started
/// again at `now` when its change was due and left alone otherwise.
pub open spec fn after_frame(old: ArtModel, new: ArtModel, w: int, h: int, theme_ms: u128, step_ms: u128, now: Instant) -> bool {
    new == (ArtModel {
        last_step: if step_due(step_ms) { now } else { old.last_step },
        last_theme: if theme_due(theme_ms) { now } else { old.last_theme },
        ..frame_state(old, w, h, theme_due(theme_ms), step_due(step_ms))
    })
}

} // verus!
