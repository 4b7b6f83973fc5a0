//! The painter: per-pixel sampling loops and PPM line emission.

use vstd::prelude::*;
use vstd::string::StringExecFns;
use crate::camera::{ray_spec, Camera};
use crate::color::{chan_to_int, fb, fg, fr, Color};
use crate::fixed::{EPS, SCALE, T_MAX, tdiv, div_t, lemma_tdiv_shape, lemma_mul_bounds};
use crate::geometry::closest_hit_t;
use crate::bvh::items;
use crate::ray::Ray;
use crate::render::TakePhotoSettings;
use crate::rng::rand_range;
use crate::vec3::Vec3;
use crate::world::{background_spec, World};

verus! {

/// What can go wrong while rendering: the output sink refused a line.
#[derive(Clone, Copy, Debug, PartialEq, Eq, Structural)]
pub enum RenderError {
    OutputWrite,
}

/// A destination for PPM lines.  An implementation reports, line by line,
/// whether the write succeeded; a failed write must leave the sink unchanged.
pub trait PpmSink: Sized {
    /// The lines written so far.
    spec fn lines(&self) -> Seq<Seq<char>>;

    /// Writes one line; `true` on success.
    fn write_line(&mut self, line: &String) -> (ok: bool)
        ensures
            ok ==> final(self).lines() == old(self).lines().push(line@),
            !ok ==> final(self).lines() == old(self).lines(),
    ;
}

/// A sink that keeps every line in memory; it never fails.
#[derive(Debug)]
pub struct VecSink {
    pub lines: Vec<String>,
}

impl VecSink {
    pub fn new() -> (s: Self)
        ensures
            s.lines().len() == 0,
    {
        VecSink { lines: Vec::new() }
    }
}

impl PpmSink for VecSink {
    open spec fn lines(&self) -> Seq<Seq<char>> {
        self.lines@.map_values(|s: String| s@)
    }

    fn write_line(&mut self, line: &String) -> (ok: bool)
        ensures
            ok,
    {
        self.lines.push(line.clone());
        proof {
            assert(self.lines().len() == old(self).lines().len() + 1);
            assert(self.lines() =~= old(self).lines().push(line@));
        }
        true
    }
}

/// A sink that holds at most a fixed number of lines and refuses the rest:
/// a bounded output that exercises a render's failure handling.
#[derive(Debug)]
pub struct LimitedSink {
    pub capacity: usize,
    pub lines: Vec<String>,
}

impl LimitedSink {
    pub fn new(capacity: usize) -> (s: Self)
        ensures
            s.lines().len() == 0,
            s.capacity == capacity,
    {
        LimitedSink { capacity, lines: Vec::new() }
    }
}

impl PpmSink for LimitedSink {
    open spec fn lines(&self) -> Seq<Seq<char>> {
        self.lines@.map_values(|s: String| s@)
    }

    fn write_line(&mut self, line: &String) -> (ok: bool)
        ensures
            ok == (old(self).lines().len() < old(self).capacity),
            final(self).capacity == old(self).capacity,
    {
        if self.lines.len() < self.capacity {
            self.lines.push(line.clone());
            proof {
                assert(self.lines() =~= old(self).lines().push(line@));
            }
            true
        } else {
            false
        }
    }
}

/// The decimal digit characters.
pub open spec fn digit_char(d: int) -> char {
    if d == 0 {
        '0'
    } else if d == 1 {
        '1'
    } else if d == 2 {
        '2'
    } else if d == 3 {
        '3'
    } else if d == 4 {
        '4'
    } else if d == 5 {
        '5'
    } else if d == 6 {
        '6'
    } else if d == 7 {
        '7'
    } else if d == 8 {
        '8'
    } else {
        '9'
    }
}

/// The decimal notation of a nonnegative number.
pub open spec fn dec_spec(n: int) -> Seq<char>
    decreases n,
{
    if n < 10 {
        seq![digit_char(n)]
    } else {
        dec_spec(n / 10) + seq![digit_char(n % 10)]
    }
}

/// One PPM body line: the three channels in decimal, space separated.
pub open spec fn pixel_line_spec(r: int, g: int, b: int) -> Seq<char> {
    dec_spec(r) + seq![' '] + dec_spec(g) + seq![' '] + dec_spec(b)
}

/// The PPM header: the magic, the dimensions, and the channel maximum.
pub open spec fn header_lines(width: int, height: int) -> Seq<Seq<char>> {
    seq![seq!['P', '3'], dec_spec(width) + seq![' '] + dec_spec(height), dec_spec(255)]
}

/// One decimal digit as a string slice.
fn digit_str(d: u64) -> (s: &'static str)
    requires
        d < 10,
    ensures
        s@ == seq![digit_char(d as int)],
{
    proof {
        reveal_strlit("0");
        reveal_strlit("1");
        reveal_strlit("2");
        reveal_strlit("3");
        reveal_strlit("4");
        reveal_strlit("5");
        reveal_strlit("6");
        reveal_strlit("7");
        reveal_strlit("8");
        reveal_strlit("9");
    }
    if d == 0 {
        "0"
    } else if d == 1 {
        "1"
    } else if d == 2 {
        "2"
    } else if d == 3 {
        "3"
    } else if d == 4 {
        "4"
    } else if d == 5 {
        "5"
    } else if d == 6 {
        "6"
    } else if d == 7 {
        "7"
    } else if d == 8 {
        "8"
    } else {
        "9"
    }
}

/// The decimal notation of a number, as a string.
pub fn dec_string(n: u64) -> (s: String)
    ensures
        s@ == dec_spec(n as int),
    decreases n,
{
    if n < 10 {
        String::from_str(digit_str(n))
    } else {
        let mut s = dec_string(n / 10);
        s.append(digit_str(n % 10));
        s
    }
}

/// One PPM body line for a pixel.
pub fn pixel_line(r: u8, g: u8, b: u8) -> (s: String)
    ensures
        s@ == pixel_line_spec(r as int, g as int, b as int),
{
    proof {
        reveal_strlit(" ");
    }
    let mut s = dec_string(r as u64);
    s.append(" ");
    let gs = dec_string(g as u64);
    s.append(gs.as_str());
    s.append(" ");
    let bs = dec_string(b as u64);
    s.append(bs.as_str());
    s
}

/// The rounded output width for a height and an aspect ratio.
pub open spec fn px_width(height: int, aspect_ratio: int) -> int {
    tdiv(height * aspect_ratio + (SCALE as int) / 2, SCALE as int)
}

/// The pixel loops: image size, per-pixel sample count, gamma switch.
#[derive(Clone, Copy, Debug, PartialEq, Eq, Structural)]
pub struct Painter {
    pub width: usize,
    pub height: usize,
    pub samples: usize,
    pub gamma: bool,
}

/// The output context: the sink and the flag recording a failed write.
#[derive(Debug)]
pub struct PainterOutputContext<S: PpmSink> {
    pub sink: S,
    pub cancel: bool,
}

/// The viewport coordinates of a sample: the pixel index jittered by
/// `(ju, jv)` quanta, normalized by the image size, with `v` measured from
/// the bottom.
pub open spec fn uv_from(p: Painter, row: int, col: int, ju: int, jv: int) -> (int, int) {
    (
        tdiv(col * (SCALE as int) + ju, p.width as int),
        tdiv((p.height - 1 - row) * (SCALE as int) + jv, p.height as int),
    )
}

/// The unjittered primary ray of a pixel.
pub open spec fn pixel_ray(p: Painter, cam: Camera, row: int, col: int) -> Ray {
    let uv = uv_from(p, row, col, 0, 0);
    ray_spec(cam, uv.0, uv.1)
}

/// Whether a pixel's unjittered primary ray escapes the scene.
pub open spec fn pixel_misses(p: Painter, cam: Camera, world: World, row: int, col: int) -> bool {
    closest_hit_t(items(world.bvh.root), pixel_ray(p, cam, row, col), EPS as int, T_MAX as int)
        is None
}

/// The exact channels of a single-sample pixel whose ray escapes: the
/// background color, averaged over one sample, gamma corrected if asked,
/// and quantized.
pub open spec fn miss_pixel_spec(p: Painter, cam: Camera, world: World, row: int, col: int) -> (
    int,
    int,
    int,
) {
    let bgc = background_spec(world.bg, pixel_ray(p, cam, row, col));
    (
        chan_to_int(Vec3::into_color_chan(fr(bgc), 1, p.gamma)),
        chan_to_int(Vec3::into_color_chan(fg(bgc), 1, p.gamma)),
        chan_to_int(Vec3::into_color_chan(fb(bgc), 1, p.gamma)),
    )
}

/// Whether a pixel is rendered without randomness and misses the scene, so
/// its emitted line is pinned exactly.
pub open spec fn pixel_pinned(
    p: Painter,
    cam: Camera,
    world: World,
    depth: int,
    row: int,
    col: int,
) -> bool {
    p.samples == 1 && depth >= 1 && pixel_misses(p, cam, world, row, col)
}

/// A line with the decimal `R G B` shape of a PPM body line.
pub open spec fn wf_pixel_line(l: Seq<char>) -> bool {
    exists|r: int, g: int, b: int|
        0 <= r < 256 && 0 <= g < 256 && 0 <= b < 256 && l == #[trigger] pixel_line_spec(r, g, b)
}

/// The PPM body lines of one row of pixels.
pub open spec fn row_lines(pixels: Seq<(u8, u8, u8)>) -> Seq<Seq<char>> {
    pixels.map_values(|p: (u8, u8, u8)| pixel_line_spec(p.0 as int, p.1 as int, p.2 as int))
}

/// What a finished render leaves behind: the sink's old lines, then the
/// header, then one well-formed body line per pixel, row-major from the top,
/// with every pinned pixel's line exact.
pub open spec fn draw_ok_post(
    p: Painter,
    cam: Camera,
    world: World,
    depth: int,
    out0: Seq<Seq<char>>,
    ls: Seq<Seq<char>>,
) -> bool {
    let base = out0.len() + 3;
    &&& ls.len() == base + p.width * p.height
    &&& ls.take(base as int) == out0 + header_lines(p.width as int, p.height as int)
    &&& forall|i: int| base <= i < ls.len() ==> wf_pixel_line(#[trigger] ls[i])
    &&& forall|row: int, col: int|
        0 <= row < p.height && 0 <= col < p.width && pixel_pinned(p, cam, world, depth, row, col)
            ==> #[trigger] ls[base + row * p.width + col] == ({
            let m = miss_pixel_spec(p, cam, world, row, col);
            pixel_line_spec(m.0, m.1, m.2)
        })
}

/// What an aborted render leaves behind: the sink's old lines followed by a
/// proper prefix of the intended output — part of the header, or the header
/// and fewer well-formed body lines than the image holds — and nothing else.
pub open spec fn draw_err_post(p: Painter, out0: Seq<Seq<char>>, ls: Seq<Seq<char>>) -> bool {
    let base = out0.len() as int;
    &&& ls.len() >= base
    &&& ls.take(base) == out0
    &&& ls.len() < base + 3 + p.width * p.height
    &&& (ls.len() <= base + 3 ==> ls == out0 + header_lines(p.width as int, p.height as int).take(
        ls.len() - base,
    ))
    &&& (ls.len() >= base + 3 ==> ls.take(base + 3) == out0 + header_lines(
        p.width as int,
        p.height as int,
    ))
    &&& forall|i: int| base + 3 <= i < ls.len() ==> wf_pixel_line(#[trigger] ls[i])
}

impl Painter {
    /// Image size within the supported range, at least one sample.
    pub open spec fn wf(self) -> bool {
        1 <= self.width <= 20_000 && 1 <= self.height <= 20_000 && 1 <= self.samples
            <= 1_000_000
    }

    /// A painter for an image of the given size, with fifty samples per
    /// pixel and no gamma correction.
    pub fn new(width: usize, height: usize) -> (p: Self)
        requires
            1 <= width <= 20_000,
            1 <= height <= 20_000,
        ensures
            p.width == width,
            p.height == height,
            p.samples == 50,
            !p.gamma,
            p.wf(),
    {
        Painter { width, height, samples: 50, gamma: false }
    }

    /// Sets the per-pixel sample count, for chaining.
    pub fn samples(self, samples: usize) -> (p: Self)
        requires
            1 <= samples <= 1_000_000,
        ensures
            p == (Painter { samples, ..self }),
    {
        Painter { samples, ..self }
    }

    /// Switches gamma correction, for chaining.
    pub fn gamma(self, gamma: bool) -> (p: Self)
        ensures
            p == (Painter { gamma, ..self }),
    {
        Painter { gamma, ..self }
    }

    /// The viewport coordinates of one sample of a pixel: exact for a single
    /// sample, jittered within the pixel for more.
    pub fn calculate_uv(&self, row: usize, col: usize) -> (r: (i64, i64))
        requires
            self.wf(),
            row < self.height,
            col < self.width,
        ensures
            0 <= r.0 < SCALE,
            0 <= r.1 < SCALE,
            exists|ju: int, jv: int|
                0 <= ju < SCALE && 0 <= jv < SCALE && (self.samples == 1 ==> ju == 0 && jv
                    == 0) && (r.0 as int, r.1 as int) == #[trigger] uv_from(
                    *self,
                    row as int,
                    col as int,
                    ju,
                    jv,
                ),
    {
        let ju: i64 = if self.samples == 1 {
            0
        } else {
            rand_range(0, SCALE)
        };
        let jv: i64 = if self.samples == 1 {
            0
        } else {
            rand_range(0, SCALE)
        };
        let w = self.width as i64;
        let h = self.height as i64;
        let c = col as i64;
        let rw = (self.height - 1 - row) as i64;
        proof {
            lemma_mul_bounds(c as int, SCALE as int, 20_000, SCALE as int);
            lemma_mul_bounds(rw as int, SCALE as int, 20_000, SCALE as int);
            lemma_uv_in_range(c as int, ju as int, w as int);
            lemma_uv_in_range(rw as int, jv as int, h as int);
        }
        let u = div_t(c * SCALE + ju, w);
        let v = div_t(rw * SCALE + jv, h);
        proof {
            assert((u as int, v as int) == uv_from(*self, row as int, col as int, ju as int, jv as int));
        }
        (u, v)
    }

    /// One pixel: every sample's color is accumulated as a raw vector, the
    /// sum averaged, gamma corrected if asked, and quantized.  A pinned
    /// pixel (single sample, positive depth, escaping ray) gets exactly the
    /// quantized background.
    pub fn render_pixel(
        &self,
        camera: &Camera,
        world: &World,
        depth: usize,
        row: usize,
        col: usize,
    ) -> (px: (u8, u8, u8))
        requires
            self.wf(),
            camera.wf(),
            world.wf(),
            row < self.height,
            col < self.width,
        ensures
            pixel_pinned(*self, *camera, *world, depth as int, row as int, col as int) ==> (
            px.0 as int,
            px.1 as int,
            px.2 as int,
            ) == miss_pixel_spec(*self, *camera, *world, row as int, col as int),
    {
        let ghost pinned = pixel_pinned(*self, *camera, *world, depth as int, row as int, col as int);
        let mut acc = Vec3::new(0, 0, 0);
        let mut s: usize = 0;
        while s < self.samples
            invariant
                self.wf(),
                camera.wf(),
                world.wf(),
                row < self.height,
                col < self.width,
                s <= self.samples,
                acc.bounded(s * (SCALE as int)),
                pinned == pixel_pinned(*self, *camera, *world, depth as int, row as int, col as int),
                pinned && s == 1 ==> ({
                    let bgc = background_spec(
                        world.bg,
                        pixel_ray(*self, *camera, row as int, col as int),
                    );
                    acc.x == fr(bgc) && acc.y == fg(bgc) && acc.z == fb(bgc)
                }),
            decreases self.samples - s,
        {
            let (u, v) = self.calculate_uv(row, col);
            let ray = camera.ray(u, v);
            let c = TakePhotoSettings::ray_color(&ray, world, depth);
            let cv = Vec3::from_color(&c);
            proof {
                crate::color::lemma_channels_valid(c);
                assert(acc.bounded((s + 1) * (SCALE as int))) by (nonlinear_arith)
                    requires
                        acc.bounded(s * (SCALE as int)),
                        cv.bounded(SCALE as int),
                        s >= 0,
                        (SCALE as int) > 0,
                ;
            }
            acc = acc.add(&cv);
            s = s + 1;
        }
        let color = acc.into_color(self.samples, self.gamma);
        proof {
            crate::color::lemma_channels_bounded(color);
        }
        let ints = color.int_form();
        (ints.r, ints.g, ints.b)
    }

    /// One row of pixels, left to right.
    pub fn seq_render_row(
        &self,
        camera: &Camera,
        world: &World,
        depth: usize,
        row: usize,
    ) -> (px: Vec<(u8, u8, u8)>)
        requires
            self.wf(),
            camera.wf(),
            world.wf(),
            row < self.height,
        ensures
            px@.len() == self.width,
            forall|col: int|
                0 <= col < self.width && pixel_pinned(
                    *self,
                    *camera,
                    *world,
                    depth as int,
                    row as int,
                    col,
                ) ==> ((#[trigger] px@[col]).0 as int, px@[col].1 as int, px@[col].2 as int)
                    == miss_pixel_spec(*self, *camera, *world, row as int, col),
    {
        let mut px: Vec<(u8, u8, u8)> = Vec::new();
        let mut col: usize = 0;
        while col < self.width
            invariant
                self.wf(),
                camera.wf(),
                world.wf(),
                row < self.height,
                col <= self.width,
                px@.len() == col,
                forall|c: int|
                    0 <= c < col && pixel_pinned(
                        *self,
                        *camera,
                        *world,
                        depth as int,
                        row as int,
                        c,
                    ) ==> ((#[trigger] px@[c]).0 as int, px@[c].1 as int, px@[c].2 as int)
                        == miss_pixel_spec(*self, *camera, *world, row as int, c),
            decreases self.width - col,
        {
            let p = self.render_pixel(camera, world, depth, row, col);
            px.push(p);
            col = col + 1;
        }
        px
    }

    /// Opens the output: the three header lines go to the sink first.
    pub fn create_output_context<S: PpmSink>(&self, sink: S) -> (r: (
        PainterOutputContext<S>,
        Result<(), RenderError>,
    ))
        requires
            self.wf(),
        ensures
            r.1 is Ok ==> r.0.sink.lines() == sink.lines() + header_lines(
                self.width as int,
                self.height as int,
            ) && !r.0.cancel,
            r.1 is Err ==> r.0.cancel && exists|k: int|
                0 <= k < 3 && r.0.sink.lines() == sink.lines() + #[trigger] header_lines(
                    self.width as int,
                    self.height as int,
                ).take(k),
    {
        proof {
            reveal_strlit("P3");
            reveal_strlit(" ");
        }
        let ghost hdr = header_lines(self.width as int, self.height as int);
        let mut s = sink;
        let magic = String::from_str("P3");
        if !s.write_line(&magic) {
            proof {
                assert(s.lines() =~~= sink.lines() + hdr.take(0));
            }
            return (PainterOutputContext { sink: s, cancel: true }, Err(RenderError::OutputWrite));
        }
        let mut dims = dec_string(self.width as u64);
        dims.append(" ");
        let hs = dec_string(self.height as u64);
        dims.append(hs.as_str());
        if !s.write_line(&dims) {
            proof {
                assert(s.lines() =~~= sink.lines() + hdr.take(1));
            }
            return (PainterOutputContext { sink: s, cancel: true }, Err(RenderError::OutputWrite));
        }
        let maxv = dec_string(255);
        if !s.write_line(&maxv) {
            proof {
                assert(s.lines() =~~= sink.lines() + hdr.take(2));
            }
            return (PainterOutputContext { sink: s, cancel: true }, Err(RenderError::OutputWrite));
        }
        proof {
            assert(s.lines() =~~= sink.lines() + header_lines(
                self.width as int,
                self.height as int,
            ));
        }
        (PainterOutputContext { sink: s, cancel: false }, Ok(()))
    }

    /// Writes one row's pixels as PPM lines.
    pub fn do_row_pixels_to_file<S: PpmSink>(
        context: &mut PainterOutputContext<S>,
        pixels: &Vec<(u8, u8, u8)>,
    ) -> (r: Result<(), RenderError>)
        ensures
            r is Ok ==> final(context).sink.lines() == old(context).sink.lines()
                + row_lines(pixels@) && final(context).cancel == old(context).cancel,
            r is Err ==> final(context).cancel == old(context).cancel && exists|k: int|
                0 <= k < pixels@.len() && final(context).sink.lines() == old(
                    context,
                ).sink.lines() + (#[trigger] row_lines(pixels@).take(k)),
    {
        let ghost base = context.sink.lines();
        let ghost all = row_lines(pixels@);
        let mut k: usize = 0;
        while k < pixels.len()
            invariant
                k <= pixels@.len(),
                all == row_lines(pixels@),
                base == old(context).sink.lines(),
                context.sink.lines() == base + all.take(k as int),
                context.cancel == old(context).cancel,
            decreases pixels@.len() - k,
        {
            let p = pixels[k];
            let line = pixel_line(p.0, p.1, p.2);
            let ok = context.sink.write_line(&line);
            if !ok {
                proof {
                    assert(base == old(context).sink.lines());
                    assert(context.sink.lines() == old(context).sink.lines() + row_lines(
                        pixels@,
                    ).take(k as int));
                    assert(exists|j: int|
                        0 <= j < pixels@.len() && context.sink.lines() == old(
                            context,
                        ).sink.lines() + (#[trigger] row_lines(pixels@).take(j)));
                }
                return Err(RenderError::OutputWrite);
            }
            proof {
                assert(context.sink.lines() =~= base + all.take(k as int + 1));
            }
            k = k + 1;
        }
        proof {
            assert(all.take(pixels@.len() as int) =~= all);
        }
        Ok(())
    }

    /// Writes one row and records a failure on the context's flag.
    pub fn row_pixels_to_file<S: PpmSink>(
        &self,
        context: &mut PainterOutputContext<S>,
        row: usize,
        pixels: &Vec<(u8, u8, u8)>,
    ) -> (r: Result<(), RenderError>)
        ensures
            r is Ok ==> final(context).sink.lines() == old(context).sink.lines()
                + row_lines(pixels@) && final(context).cancel == old(context).cancel,
            r is Err ==> final(context).cancel && exists|k: int|
                0 <= k < pixels@.len() && final(context).sink.lines() == old(
                    context,
                ).sink.lines() + (#[trigger] row_lines(pixels@).take(k)),
    {
        match Self::do_row_pixels_to_file(context, pixels) {
            Ok(()) => Ok(()),
            Err(e) => {
                context.cancel = true;
                Err(e)
            },
        }
    }

    /// Renders the whole image into the sink: the header, then one line per
    /// pixel, rows top to bottom.  The render stops at the first failed
    /// write, leaving a proper prefix of the intended output behind; on
    /// success every body line is a well-formed pixel line and every pinned
    /// pixel's line is exact.
    pub fn draw<S: PpmSink>(&self, sink: S, camera: &Camera, world: &World, depth: usize) -> (r: (
        S,
        Result<(), RenderError>,
    ))
        requires
            self.wf(),
            camera.wf(),
            world.wf(),
        ensures
            r.1 is Ok ==> draw_ok_post(
                *self,
                *camera,
                *world,
                depth as int,
                sink.lines(),
                r.0.lines(),
            ),
            r.1 is Err ==> draw_err_post(*self, sink.lines(), r.0.lines()),
    {
        let ghost out0 = sink.lines();
        let ghost hdr = header_lines(self.width as int, self.height as int);
        let (mut context, st) = self.create_output_context(sink);
        if st.is_err() {
            proof {
                let k = choose|k: int| 0 <= k < 3 && context.sink.lines() == out0 + hdr.take(k);
                assert(context.sink.lines().len() == out0.len() + k);
                assert(context.sink.lines().take(out0.len() as int) =~= out0);
                assert(self.width * self.height >= 0) by (nonlinear_arith);
                assert(context.sink.lines() == out0 + hdr.take(
                    context.sink.lines().len() - out0.len(),
                ));
            }
            return (context.sink, Err(RenderError::OutputWrite));
        }
        let ghost base_lines = context.sink.lines();
        proof {
            assert(context.sink.lines().take(base_lines.len() as int) =~= base_lines);
        }
        let mut row: usize = 0;
        while row < self.height
            invariant
                self.wf(),
                camera.wf(),
                world.wf(),
                row <= self.height,
                !context.cancel,
                out0 == sink.lines(),
                base_lines == out0 + hdr,
                hdr == header_lines(self.width as int, self.height as int),
                base_lines.len() == out0.len() + 3,
                context.sink.lines().len() == base_lines.len() + row * self.width,
                context.sink.lines().take(base_lines.len() as int) == base_lines,
                forall|i: int|
                    base_lines.len() <= i < context.sink.lines().len() ==> wf_pixel_line(
                        #[trigger] context.sink.lines()[i],
                    ),
                forall|r0: int, c0: int|
                    0 <= r0 < row && 0 <= c0 < self.width && pixel_pinned(
                        *self,
                        *camera,
                        *world,
                        depth as int,
                        r0,
                        c0,
                    ) ==> #[trigger] context.sink.lines()[base_lines.len() + r0 * self.width + c0]
                        == ({
                        let m = miss_pixel_spec(*self, *camera, *world, r0, c0);
                        pixel_line_spec(m.0, m.1, m.2)
                    }),
            decreases self.height - row,
        {
            if context.cancel {
                return (context.sink, Err(RenderError::OutputWrite));
            }
            let pixels = self.seq_render_row(camera, world, depth, row);
            let ghost before = context.sink.lines();
            match self.row_pixels_to_file(&mut context, row, &pixels) {
                Err(e) => {
                    proof {
                        let all = row_lines(pixels@);
                        let k = choose|k: int|
                            0 <= k < pixels@.len() && context.sink.lines() == before + all.take(k);
                        assert(base_lines.take(out0.len() as int) =~= out0);
                        lemma_err_prefix(
                            out0,
                            base_lines,
                            before,
                            context.sink.lines(),
                            pixels@,
                            k,
                            row as int,
                            self.width as int,
                            self.height as int,
                        );
                        assert(out0.take(out0.len() as int) =~= out0);
                        assert(context.sink.lines().take((out0.len() + 3) as int)
                            == before.take((out0.len() + 3) as int));
                        assert(before.take((out0.len() + 3) as int) == base_lines);
                        if context.sink.lines().len() <= out0.len() + 3 {
                            assert(context.sink.lines().take(context.sink.lines().len() as int)
                                =~= context.sink.lines());
                            assert(hdr.take(3) =~= hdr);
                            assert(context.sink.lines() == out0 + hdr.take(
                                context.sink.lines().len() - out0.len(),
                            ));
                        }
                    }
                    return (context.sink, Err(e));
                },
                Ok(()) => {},
            }
            proof {
                lemma_row_append(
                    before,
                    context.sink.lines(),
                    pixels@,
                    base_lines.len() as int,
                    row as int,
                    self.width as int,
                );
                assert(context.sink.lines().take(base_lines.len() as int) =~= base_lines);
                assert((row + 1) * self.width == row * self.width + self.width) by (nonlinear_arith);
                assert(row_lines(pixels@).take(pixels@.len() as int) =~= row_lines(pixels@));
                assert(context.sink.lines() == before + row_lines(pixels@).take(
                    pixels@.len() as int,
                ));
                lemma_wf_appended(
                    before,
                    context.sink.lines(),
                    pixels@,
                    pixels@.len() as int,
                    base_lines.len() as int,
                );
                let base = base_lines.len() as int;
                let w = self.width as int;
                assert forall|r0: int, c0: int|
                    0 <= r0 < row + 1 && 0 <= c0 < w && pixel_pinned(
                        *self,
                        *camera,
                        *world,
                        depth as int,
                        r0,
                        c0,
                    ) implies #[trigger] context.sink.lines()[base + r0 * w + c0] == ({
                    let m = miss_pixel_spec(*self, *camera, *world, r0, c0);
                    pixel_line_spec(m.0, m.1, m.2)
                }) by {
                    if r0 < row {
                        assert(r0 * w + c0 < row * w) by (nonlinear_arith)
                            requires 0 <= r0 <= row - 1 && 0 <= c0 < w;
                        assert(r0 * w >= 0) by (nonlinear_arith)
                            requires r0 >= 0 && w >= 0;
                        assert(context.sink.lines()[base + r0 * w + c0] == before[base + r0 * w
                            + c0]);
                    } else {
                        assert(r0 == row);
                        assert(context.sink.lines()[base + row * w + c0] == pixel_line_spec(
                            pixels@[c0].0 as int,
                            pixels@[c0].1 as int,
                            pixels@[c0].2 as int,
                        ));
                    }
                }
            }
            row = row + 1;
        }
        proof {
            assert(context.sink.lines().take(base_lines.len() as int) =~= base_lines);
            assert(self.width * self.height == self.height * self.width) by (nonlinear_arith);
        }
        (context.sink, Ok(()))
    }
}

/// After a mid-row failure the sink holds a proper prefix of the render.
proof fn lemma_err_prefix(
    out0: Seq<Seq<char>>,
    base_lines: Seq<Seq<char>>,
    before: Seq<Seq<char>>,
    after: Seq<Seq<char>>,
    pixels: Seq<(u8, u8, u8)>,
    k: int,
    row: int,
    width: int,
    height: int,
)
    requires
        base_lines.len() == out0.len() + 3,
        base_lines.take(out0.len() as int) == out0,
        before.len() == base_lines.len() + row * width,
        before.take(base_lines.len() as int) == base_lines,
        0 <= row < height,
        width == pixels.len(),
        width >= 1,
        0 <= k < width,
        after == before + row_lines(pixels).take(k),
        forall|i: int| base_lines.len() <= i < before.len() ==> wf_pixel_line(#[trigger] before[i]),
    ensures
        after.len() >= out0.len(),
        after.take(out0.len() as int) == out0.take(out0.len() as int),
        after.len() < out0.len() + 3 + width * height,
        after.len() >= out0.len() + 3,
        after.take((out0.len() + 3) as int) == before.take((out0.len() + 3) as int),
        forall|i: int| out0.len() + 3 <= i < after.len() ==> wf_pixel_line(#[trigger] after[i]),
{
    assert(row * width >= 0) by (nonlinear_arith)
        requires row >= 0 && width >= 0;
    assert(row * width + k < height * width) by (nonlinear_arith)
        requires 0 <= row <= height - 1 && 0 <= k < width;
    assert(width * height == height * width) by (nonlinear_arith);
    assert(after.take(out0.len() as int) =~= before.take(out0.len() as int));
    assert(before.take(out0.len() as int) =~= base_lines.take(out0.len() as int));
    assert(out0.take(out0.len() as int) =~= out0);
    assert(after.take((out0.len() + 3) as int) =~= before.take((out0.len() + 3) as int));
    lemma_wf_appended(before, after, pixels, k, base_lines.len() as int);
}

/// Lines appended from a prefix of a row keep the body well formed.
proof fn lemma_wf_appended(
    before: Seq<Seq<char>>,
    after: Seq<Seq<char>>,
    pixels: Seq<(u8, u8, u8)>,
    k: int,
    lo: int,
)
    requires
        0 <= k <= pixels.len(),
        0 <= lo <= before.len(),
        after == before + row_lines(pixels).take(k),
        forall|i: int| lo <= i < before.len() ==> wf_pixel_line(#[trigger] before[i]),
    ensures
        forall|i: int| lo <= i < after.len() ==> wf_pixel_line(#[trigger] after[i]),
{
    let all = row_lines(pixels);
    assert forall|i: int| lo <= i < after.len() implies wf_pixel_line(#[trigger] after[i]) by {
        if i < before.len() {
            assert(after[i] == before[i]);
        } else {
            let c = i - before.len();
            assert(after[i] == all.take(k)[c]);
            assert(all[c] == pixel_line_spec(
                pixels[c].0 as int,
                pixels[c].1 as int,
                pixels[c].2 as int,
            ));
            assert(0 <= (pixels[c].0 as int) && (pixels[c].0 as int) < 256);
            assert(0 <= (pixels[c].1 as int) && (pixels[c].1 as int) < 256);
            assert(0 <= (pixels[c].2 as int) && (pixels[c].2 as int) < 256);
        }
    }
}

/// Indexing into the freshly appended row of lines.
proof fn lemma_row_append(
    before: Seq<Seq<char>>,
    after: Seq<Seq<char>>,
    pixels: Seq<(u8, u8, u8)>,
    base: int,
    row: int,
    width: int,
)
    requires
        0 <= base,
        0 <= row,
        width == pixels.len(),
        before.len() == base + row * width,
        after == before + row_lines(pixels),
    ensures
        after.len() == base + (row + 1) * width,
        forall|c: int|
            0 <= c < width ==> #[trigger] after[base + row * width + c] == pixel_line_spec(
                pixels[c].0 as int,
                pixels[c].1 as int,
                pixels[c].2 as int,
            ),
        forall|i: int| 0 <= i < before.len() ==> #[trigger] after[i] == before[i],
{
    assert((row + 1) * width == row * width + width) by (nonlinear_arith);
    assert forall|c: int| 0 <= c < width implies #[trigger] after[base + row * width + c]
        == pixel_line_spec(pixels[c].0 as int, pixels[c].1 as int, pixels[c].2 as int) by {
        assert(after[base + row * width + c] == row_lines(pixels)[c]);
    }
}

/// Jittered pixel coordinates stay inside the unit viewport.
proof fn lemma_uv_in_range(c: int, j: int, w: int)
    requires
        0 <= c < w,
        w <= 20_000,
        0 <= j < SCALE as int,
    ensures
        0 <= tdiv(c * (SCALE as int) + j, w) < SCALE as int,
        c * (SCALE as int) + j >= 0,
        c * (SCALE as int) + j <= 20_000 * (SCALE as int),
{
    lemma_mul_bounds(c, SCALE as int, w - 1, SCALE as int);
    assert(c * (SCALE as int) <= (w - 1) * (SCALE as int)) by (nonlinear_arith)
        requires 0 <= c <= w - 1 && (SCALE as int) > 0;
    assert(c * (SCALE as int) >= 0) by (nonlinear_arith)
        requires c >= 0 && (SCALE as int) > 0;
    assert((w - 1) * (SCALE as int) + (SCALE as int) == w * (SCALE as int)) by (nonlinear_arith);
    lemma_tdiv_shape(c * (SCALE as int) + j, w);
    let q = tdiv(c * (SCALE as int) + j, w);
    if q >= SCALE as int {
        assert(w * q >= w * (SCALE as int)) by (nonlinear_arith)
            requires w > 0 && q >= SCALE as int;
        assert(false);
    }
    assert((w - 1) * (SCALE as int) <= 20_000 * (SCALE as int)) by (nonlinear_arith)
        requires w <= 20_000 && (SCALE as int) > 0;
}

} // verus!
