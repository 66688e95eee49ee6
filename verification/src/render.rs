//! The order of the pixels: one image rendered in one sweep, or cut into
//! bands of rows that are rendered independently and put back together.
//!
//! Image coordinates count `x` from the left and `y` from the bottom. The
//! finished stream holds the top row first, each row from left to right.
use vstd::prelude::*;
use crate::vec3::IVec3;

verus! {

/// The stream of a whole image in write order: row `height - 1` first, row 0
/// last, each row from `x = 0` upwards.
pub open spec fn scanlines(width: int, height: int, image: spec_fn(int, int) -> IVec3) -> Seq<
    IVec3,
> {
    Seq::new((width * height) as nat, |i: int| image(scan_x(width, i), scan_y(width, height, i)))
}

/// Column of the `i`-th pixel of the finished stream.
pub open spec fn scan_x(width: int, i: int) -> int {
    i % width
}

/// Row of the `i`-th pixel of the finished stream.
pub open spec fn scan_y(width: int, height: int, i: int) -> int {
    height - 1 - i / width
}

/// Where the pixel in column `x` of row `y` stands in the finished stream.
pub open spec fn scan_index(width: int, height: int, x: int, y: int) -> int {
    width * (height - 1 - y) + x
}

/// Column of the `i`-th pixel that a worker produces: every row runs from the
/// right edge to the left.
pub open spec fn band_x(width: int, i: int) -> int {
    width - 1 - i % width
}

/// Row of the `i`-th pixel that the worker of the band starting at row `from`
/// produces: rows in ascending order.
pub open spec fn band_y(width: int, from: int, i: int) -> int {
    from + i / width
}

/// Where the pixel in column `x` of row `y` stands in what the worker of the
/// band starting at row `from` hands back.
pub open spec fn band_index(width: int, from: int, x: int, y: int) -> int {
    width * (y - from) + (width - 1 - x)
}

/// What the worker of the band of `rows` rows starting at row `from` hands
/// back when the image is `image`.
pub open spec fn band_segment(
    width: int,
    from: int,
    rows: int,
    image: spec_fn(int, int) -> IVec3,
) -> Seq<IVec3> {
    Seq::new((width * rows) as nat, |i: int| image(band_x(width, i), band_y(width, from, i)))
}

/// `pixels` is what rendering the whole image with `shade` in one sweep may
/// give: for every pixel an answer of `shade`, at its place in write order.
pub open spec fn image_rendered<F: Fn(usize, usize) -> IVec3>(
    shade: F,
    width: int,
    height: int,
    pixels: Seq<IVec3>,
) -> bool {
    &&& pixels.len() == width * height
    &&& forall|x: usize, y: usize|
        x < width && y < height ==> call_ensures(
            shade,
            (x, y),
            pixels[#[trigger] scan_index(width, height, x as int, y as int)],
        )
}

/// `pixels` is what rendering band `band` with `shade` may give: for every
/// pixel of the band an answer of `shade`, at the place where the worker puts
/// it.
pub open spec fn band_rendered<F: Fn(usize, usize) -> IVec3>(
    shade: F,
    width: int,
    rows: int,
    band: int,
    pixels: Seq<IVec3>,
) -> bool {
    &&& pixels.len() == width * rows
    &&& forall|x: usize, y: usize|
        x < width && rows * band <= y < rows * band + rows ==> call_ensures(
            shade,
            (x, y),
            pixels[#[trigger] band_index(width, rows * band, x as int, y as int)],
        )
}

/// The image cannot be cut into the number of equal bands that was asked for.
#[derive(Clone, Copy, Debug, PartialEq, Eq, Structural)]
pub struct ConfigError {
    /// Rows of the image.
    pub height: usize,
    /// Bands asked for.
    pub bands: usize,
}

/// An image cut into `bands` bands of `rows` rows each. Band 0 holds the
/// bottom rows.
#[derive(Clone, Copy, Debug)]
pub struct TilePlan {
    width: usize,
    height: usize,
    bands: usize,
    rows: usize,
}

impl TilePlan {
    #[verifier::type_invariant]
    spec fn inv(self) -> bool {
        self.bands > 0 && self.rows * self.bands == self.height
    }

    /// Pixels per row.
    pub closed spec fn spec_width(self) -> int {
        self.width as int
    }

    /// Rows of the image.
    pub closed spec fn spec_height(self) -> int {
        self.height as int
    }

    /// Number of bands.
    pub closed spec fn spec_bands(self) -> int {
        self.bands as int
    }

    /// Rows of each band.
    pub closed spec fn spec_rows(self) -> int {
        self.rows as int
    }

    /// Cuts an image of `height` rows into `bands` equal bands, or refuses
    /// when `bands` does not divide `height` evenly.
    pub fn new(width: usize, height: usize, bands: usize) -> (r: Result<TilePlan, ConfigError>)
        ensures
            r is Ok <==> bands > 0 && height % bands == 0,
            r matches Ok(plan) ==> {
                &&& plan.spec_width() == width
                &&& plan.spec_height() == height
                &&& plan.spec_bands() == bands
                &&& plan.spec_rows() == height / bands
                &&& plan.spec_rows() * plan.spec_bands() == height
            },
            r matches Err(e) ==> e == (ConfigError { height, bands }),
    {
        if bands == 0 || height % bands != 0 {
            return Err(ConfigError { height, bands });
        }
        let rows = height / bands;
        proof {
            vstd::arithmetic::div_mod::lemma_fundamental_div_mod(height as int, bands as int);
            vstd::arithmetic::mul::lemma_mul_is_commutative(bands as int, rows as int);
        }
        Ok(TilePlan { width, height, bands, rows })
    }

    /// Pixels per row.
    pub fn width(&self) -> (r: usize)
        ensures
            r == self.spec_width(),
    {
        self.width
    }

    /// Rows of the image.
    pub fn height(&self) -> (r: usize)
        ensures
            r == self.spec_height(),
    {
        self.height
    }

    /// Number of bands.
    pub fn bands(&self) -> (r: usize)
        ensures
            r == self.spec_bands(),
            r > 0,
    {
        proof {
            use_type_invariant(self);
        }
        self.bands
    }

    /// Rows of each band.
    pub fn rows(&self) -> (r: usize)
        ensures
            r == self.spec_rows(),
            r * self.spec_bands() == self.spec_height(),
    {
        proof {
            use_type_invariant(self);
        }
        self.rows
    }

    /// The lowest row of band `band`.
    pub fn band_start(&self, band: usize) -> (from: usize)
        requires
            band < self.spec_bands(),
        ensures
            from == self.spec_rows() * band,
            from + self.spec_rows() <= self.spec_height(),
    {
        proof {
            use_type_invariant(self);
            lemma_band_fits(self.rows as int, band as int, self.bands as int);
        }
        self.rows * band
    }

    /// Renders one band as its worker does: the rows of the band from the
    /// lowest upwards, each row from the right edge to the left, asking
    /// `shade` for every pixel once, in that order.
    pub fn render_band<F: Fn(usize, usize) -> IVec3>(&self, band: usize, shade: &F) -> (segment:
        Vec<IVec3>)
        requires
            band < self.spec_bands(),
            forall|x: usize, y: usize|
                x < self.spec_width() && y < self.spec_height() ==> call_requires(*shade, (x, y)),
        ensures
            band_rendered(*shade, self.spec_width(), self.spec_rows(), band as int, segment@),
    {
        let from = self.band_start(band);
        let width = self.width;
        let rows = self.rows;
        let mut segment: Vec<IVec3> = Vec::new();
        let mut row: usize = 0;
        while row < rows
            invariant
                row <= rows,
                width == self.spec_width(),
                rows == self.spec_rows(),
                from == rows * band,
                from + rows <= self.spec_height(),
                segment.len() == width * row,
                forall|x: usize, y: usize|
                    x < self.spec_width() && y < self.spec_height() ==> call_requires(
                        *shade,
                        (x, y),
                    ),
                forall|i: int|
                    0 <= i < segment.len() ==> call_ensures(
                        *shade,
                        (band_x(width as int, i) as usize, band_y(width as int, from as int, i) as usize),
                        #[trigger] segment[i],
                    ),
            decreases rows - row,
        {
            let y = from + row;
            let mut x = width;
            while x > 0
                invariant
                    x <= width,
                    row < rows,
                    y == from + row,
                    y < self.spec_height(),
                    width == self.spec_width(),
                    segment.len() == width * row + (width - x),
                    forall|x: usize, y: usize|
                        x < self.spec_width() && y < self.spec_height() ==> call_requires(
                            *shade,
                            (x, y),
                        ),
                    forall|i: int|
                        0 <= i < segment.len() ==> call_ensures(
                            *shade,
                            (
                                band_x(width as int, i) as usize,
                                band_y(width as int, from as int, i) as usize,
                            ),
                            #[trigger] segment[i],
                        ),
                decreases x,
            {
                x -= 1;
                let pixel = shade(x, y);
                proof {
                    lemma_cell(width as int, row as int, width - 1 - x);
                }
                segment.push(pixel);
            }
            proof {
                assert(width * row + width == width * (row + 1)) by (nonlinear_arith);
            }
            row += 1;
        }
        proof {
            assert forall|x: usize, y: usize|
                x < width && from <= y < from + rows implies call_ensures(
                *shade,
                (x, y),
                segment[#[trigger] band_index(width as int, from as int, x as int, y as int)],
            ) by {
                let i = band_index(width as int, from as int, x as int, y as int);
                lemma_cell(width as int, y - from, width - 1 - x);
                lemma_rows_fit(width as int, y - from, rows as int);
                assert(call_ensures(
                    *shade,
                    (band_x(width as int, i) as usize, band_y(width as int, from as int, i) as usize),
                    segment[i],
                ));
            }
        }
        segment
    }
}

/// Renders the whole image in one sweep: the top row first, every row from
/// left to right, asking `shade` for every pixel once, in that order.
pub fn render<F: Fn(usize, usize) -> IVec3>(width: usize, height: usize, shade: &F) -> (pixels:
    Vec<IVec3>)
    requires
        forall|x: usize, y: usize| x < width && y < height ==> call_requires(*shade, (x, y)),
    ensures
        image_rendered(*shade, width as int, height as int, pixels@),
{
    let mut pixels: Vec<IVec3> = Vec::new();
    let mut y = height;
    while y > 0
        invariant
            y <= height,
            pixels.len() == width * (height - y),
            forall|x: usize, y: usize| x < width && y < height ==> call_requires(*shade, (x, y)),
            forall|i: int|
                0 <= i < pixels.len() ==> call_ensures(
                    *shade,
                    (
                        scan_x(width as int, i) as usize,
                        scan_y(width as int, height as int, i) as usize,
                    ),
                    #[trigger] pixels[i],
                ),
        decreases y,
    {
        y -= 1;
        let mut x: usize = 0;
        while x < width
            invariant
                x <= width,
                y < height,
                pixels.len() == width * (height - 1 - y) + x,
                forall|x: usize, y: usize|
                    x < width && y < height ==> call_requires(*shade, (x, y)),
                forall|i: int|
                    0 <= i < pixels.len() ==> call_ensures(
                        *shade,
                        (
                            scan_x(width as int, i) as usize,
                            scan_y(width as int, height as int, i) as usize,
                        ),
                        #[trigger] pixels[i],
                    ),
            decreases width - x,
        {
            let pixel = shade(x, y);
            proof {
                lemma_cell(width as int, height - 1 - y, x as int);
            }
            pixels.push(pixel);
            x += 1;
        }
        proof {
            assert(width * (height - 1 - y) + width == width * (height - y)) by (nonlinear_arith);
        }
    }
    proof {
        assert forall|x: usize, y: usize| x < width && y < height implies call_ensures(
            *shade,
            (x, y),
            pixels[#[trigger] scan_index(width as int, height as int, x as int, y as int)],
        ) by {
            let i = scan_index(width as int, height as int, x as int, y as int);
            lemma_cell(width as int, height - 1 - y, x as int);
            lemma_rows_fit(width as int, height - 1 - y, height as int);
            assert(call_ensures(
                *shade,
                (
                    scan_x(width as int, i) as usize,
                    scan_y(width as int, height as int, i) as usize,
                ),
                pixels[i],
            ));
        }
    }
    pixels
}

/// What one worker sends back: the number of its band and the pixels of that
/// band in the order in which the worker produced them.
pub struct Segment {
    pub band: usize,
    pub pixels: Vec<IVec3>,
}

/// `i` is the place of the first segment of band `band` among `arrived`.
pub open spec fn is_first_arrival(arrived: Seq<(int, Seq<IVec3>)>, band: int, i: int) -> bool {
    &&& 0 <= i < arrived.len()
    &&& arrived[i].0 == band
    &&& forall|j: int| 0 <= j < i ==> arrived[j].0 != band
}

/// What band `band` contributes to the finished stream: the pixels of its
/// first segment, last produced first; nothing when no segment of that band
/// has arrived.
pub open spec fn emitted(arrived: Seq<(int, Seq<IVec3>)>, band: int) -> Seq<IVec3> {
    if exists|i: int| is_first_arrival(arrived, band, i) {
        arrived[choose|i: int| is_first_arrival(arrived, band, i)].1.reverse()
    } else {
        Seq::empty()
    }
}

/// The finished stream of the lowest `bands` bands: the highest band first,
/// band 0 last, whatever the order in which the segments arrived.
pub open spec fn write_order(arrived: Seq<(int, Seq<IVec3>)>, bands: int) -> Seq<IVec3>
    decreases bands,
{
    if bands <= 0 {
        Seq::empty()
    } else {
        emitted(arrived, bands - 1) + write_order(arrived, bands - 1)
    }
}

/// Gathers the segments of the workers in the order in which they arrive.
pub struct Collector {
    arrived: Vec<Segment>,
}

impl View for Collector {
    type V = Seq<(int, Seq<IVec3>)>;

    /// The segments received so far, in arrival order, each as the number of
    /// its band and its pixels.
    closed spec fn view(&self) -> Seq<(int, Seq<IVec3>)> {
        Seq::new(
            self.arrived.len() as nat,
            |i: int| (self.arrived[i].band as int, self.arrived[i].pixels@),
        )
    }
}

impl Collector {
    /// A collector that has received nothing.
    pub fn new() -> (c: Collector)
        ensures
            c@ == Seq::<(int, Seq<IVec3>)>::empty(),
    {
        let c = Collector { arrived: Vec::new() };
        assert(c@ =~= Seq::<(int, Seq<IVec3>)>::empty());
        c
    }

    /// Takes in one segment.
    pub fn receive(&mut self, segment: Segment)
        ensures
            final(self)@ == old(self)@.push((segment.band as int, segment.pixels@)),
    {
        let ghost before = self@;
        let ghost arrival = (segment.band as int, segment.pixels@);
        self.arrived.push(segment);
        assert(self@ =~= before.push(arrival));
    }

    /// Number of segments received.
    pub fn len(&self) -> (n: usize)
        ensures
            n == self@.len(),
    {
        self.arrived.len()
    }

    /// The place of the first segment of band `band`, if one has arrived.
    pub fn find(&self, band: usize) -> (place: Option<usize>)
        ensures
            place matches Some(i) ==> is_first_arrival(self@, band as int, i as int),
            place is None ==> forall|j: int| 0 <= j < self@.len() ==> self@[j].0 != band,
    {
        let mut i: usize = 0;
        while i < self.arrived.len()
            invariant
                i <= self.arrived.len(),
                forall|j: int| 0 <= j < i ==> self@[j].0 != band,
            decreases self.arrived.len() - i,
        {
            if self.arrived[i].band == band {
                return Some(i);
            }
            i += 1;
        }
        None
    }

    /// The finished stream of an image of `bands` bands: for each band from
    /// the highest down to band 0, the pixels of its first segment in the
    /// reverse of the order in which they were produced. A band of which no
    /// segment has arrived is left out.
    pub fn assemble(&self, bands: usize) -> (pixels: Vec<IVec3>)
        ensures
            pixels@ == write_order(self@, bands as int),
    {
        let mut pixels: Vec<IVec3> = Vec::new();
        let mut n = bands;
        while n > 0
            invariant
                n <= bands,
                pixels@ + write_order(self@, n as int) == write_order(self@, bands as int),
            decreases n,
        {
            n -= 1;
            let ghost before = pixels@;
            if let Some(i) = self.find(n) {
                proof {
                    lemma_first_arrival_is_emitted(self@, n as int, i as int);
                }
                append_reversed(&mut pixels, &self.arrived[i].pixels);
            }
            assert(pixels@ =~= before + emitted(self@, n as int));
            assert(pixels@ + write_order(self@, n as int) =~= before + write_order(
                self@,
                n + 1,
            ));
        }
        pixels
    }
}

/// Appends the pixels of `segment` to `pixels`, last first.
fn append_reversed(pixels: &mut Vec<IVec3>, segment: &Vec<IVec3>)
    ensures
        final(pixels)@ == old(pixels)@ + segment@.reverse(),
{
    let ghost before = pixels@;
    let mut k = segment.len();
    while k > 0
        invariant
            k <= segment.len(),
            pixels@.len() == before.len() + (segment.len() - k),
            forall|j: int| 0 <= j < before.len() ==> pixels@[j] == before[j],
            forall|j: int|
                before.len() <= j < pixels@.len() ==> #[trigger] pixels@[j] == segment@[segment.len()
                    - 1 - (j - before.len())],
        decreases k,
    {
        k -= 1;
        pixels.push(segment[k]);
    }
    assert(pixels@ =~= before + segment@.reverse());
}

/// Renders the image in `bands` bands, one after the other, and puts them
/// together through a [`Collector`]. The result has every pixel at the place
/// where a single sweep puts it. Refuses, before any pixel is rendered, when
/// `bands` does not divide the number of rows evenly.
pub fn render_tiled<F: Fn(usize, usize) -> IVec3>(
    width: usize,
    height: usize,
    bands: usize,
    shade: &F,
) -> (r: Result<Vec<IVec3>, ConfigError>)
    requires
        forall|x: usize, y: usize| x < width && y < height ==> call_requires(*shade, (x, y)),
    ensures
        r is Ok <==> bands > 0 && height % bands == 0,
        r matches Err(e) ==> e == (ConfigError { height, bands }),
        r matches Ok(pixels) ==> image_rendered(*shade, width as int, height as int, pixels@),
{
    let plan = match TilePlan::new(width, height, bands) {
        Ok(plan) => plan,
        Err(e) => {
            return Err(e);
        },
    };
    let ghost rows = plan.spec_rows();
    let mut collector = Collector::new();
    let mut band: usize = 0;
    while band < bands
        invariant
            band <= bands,
            plan.spec_width() == width,
            plan.spec_height() == height,
            plan.spec_bands() == bands,
            plan.spec_rows() == rows,
            forall|x: usize, y: usize| x < width && y < height ==> call_requires(*shade, (x, y)),
            collector@.len() == band,
            forall|k: int|
                0 <= k < band ==> (#[trigger] collector@[k]).0 == k && band_rendered(
                    *shade,
                    width as int,
                    rows,
                    k,
                    collector@[k].1,
                ),
        decreases bands - band,
    {
        let pixels = plan.render_band(band, shade);
        collector.receive(Segment { band, pixels });
        band += 1;
    }
    let pixels = collector.assemble(bands);
    proof {
        lemma_bands_in_turn_are_image(*shade, collector@, width as int, rows, bands as int);
    }
    Ok(pixels)
}

/// A segment of band `band` is among `arrived`.
pub open spec fn has_arrived(arrived: Seq<(int, Seq<IVec3>)>, band: int) -> bool {
    exists|i: int| 0 <= i < arrived.len() && (#[trigger] arrived[i]).0 == band
}

/// Every segment among `arrived` that belongs to one of the lowest `bands`
/// bands holds its band of the image `image`, in the order in which a worker
/// produces it.
pub open spec fn segments_show(
    arrived: Seq<(int, Seq<IVec3>)>,
    width: int,
    rows: int,
    bands: int,
    image: spec_fn(int, int) -> IVec3,
) -> bool {
    forall|i: int|
        0 <= i < arrived.len() && 0 <= (#[trigger] arrived[i]).0 < bands ==> arrived[i].1
            == band_segment(width, rows * arrived[i].0, rows, image)
}

/// Collecting restores the order of the rows. Let the segments arrive in any
/// order, each band any number of times but at least once, each segment
/// holding its band of one and the same image. Then the finished stream is
/// that image exactly as a single sweep writes it: the top row first, every
/// row from left to right.
pub proof fn lemma_collected_bands_are_scanlines(
    arrived: Seq<(int, Seq<IVec3>)>,
    width: int,
    rows: int,
    bands: int,
    image: spec_fn(int, int) -> IVec3,
)
    requires
        0 <= width,
        0 <= rows,
        0 <= bands,
        forall|band: int| 0 <= band < bands ==> has_arrived(arrived, band),
        segments_show(arrived, width, rows, bands, image),
    ensures
        write_order(arrived, bands) == scanlines(width, rows * bands, image),
    decreases bands,
{
    if bands == 0 {
        assert(rows * 0 == 0);
        assert(width * 0 == 0);
        assert(write_order(arrived, bands) =~= scanlines(width, rows * bands, image));
    } else {
        let top = bands - 1;
        lemma_collected_bands_are_scanlines(arrived, width, rows, top, image);
        assert(has_arrived(arrived, top));
        let j = choose|j: int| 0 <= j < arrived.len() && (#[trigger] arrived[j]).0 == top;
        let i = lemma_first_arrival_exists(arrived, top, j);
        lemma_first_arrival_is_emitted(arrived, top, i);
        lemma_band_on_top(width, rows, top, image);
    }
}

/// Bands rendered and received one after the other, band 0 first, come out
/// of the collector as one rendering of the whole image.
proof fn lemma_bands_in_turn_are_image<F: Fn(usize, usize) -> IVec3>(
    shade: F,
    arrived: Seq<(int, Seq<IVec3>)>,
    width: int,
    rows: int,
    bands: int,
)
    requires
        0 <= width,
        0 <= rows,
        0 <= bands,
        arrived.len() == bands,
        forall|k: int|
            0 <= k < bands ==> (#[trigger] arrived[k]).0 == k && band_rendered(
                shade,
                width,
                rows,
                k,
                arrived[k].1,
            ),
    ensures
        image_rendered(shade, width, rows * bands, write_order(arrived, bands)),
{
    let height = rows * bands;
    let image = |x: int, y: int| arrived[y / rows].1[band_index(width, rows * (y / rows), x, y)];
    assert forall|i: int|
        0 <= i < arrived.len() && 0 <= (#[trigger] arrived[i]).0 < bands implies arrived[i].1
        == band_segment(width, rows * arrived[i].0, rows, image) by {
        let seen = arrived[i].1;
        let drawn = band_segment(width, rows * i, rows, image);
        assert(0 <= width * rows) by (nonlinear_arith)
            requires
                0 <= width,
                0 <= rows,
        ;
        assert forall|n: int| 0 <= n < seen.len() implies seen[n] == drawn[n] by {
            assert(width > 0 && rows > 0) by (nonlinear_arith)
                requires
                    0 <= n < width * rows,
                    0 <= width,
                    0 <= rows,
            ;
            vstd::arithmetic::div_mod::lemma_fundamental_div_mod(n, width);
            vstd::arithmetic::div_mod::lemma_mod_bound(n, width);
            let q = n / width;
            let r = n % width;
            assert(0 <= q < rows) by (nonlinear_arith)
                requires
                    n == width * q + r,
                    0 <= r < width,
                    0 <= n < width * rows,
            ;
            lemma_cell(rows, i, q);
        }
        assert(seen =~= drawn);
    }
    assert forall|band: int| 0 <= band < bands implies has_arrived(arrived, band) by {
        assert(arrived[band].0 == band);
    }
    lemma_collected_bands_are_scanlines(arrived, width, rows, bands, image);
    let pixels = write_order(arrived, bands);
    assert(0 <= width * height) by (nonlinear_arith)
        requires
            0 <= width,
            0 <= height,
    ;
    assert forall|x: usize, y: usize| x < width && y < height implies call_ensures(
        shade,
        (x, y),
        pixels[#[trigger] scan_index(width, height, x as int, y as int)],
    ) by {
        let i = scan_index(width, height, x as int, y as int);
        lemma_cell(width, height - 1 - y, x as int);
        lemma_rows_fit(width, height - 1 - y, height);
        assert(pixels[i] == image(x as int, y as int));
        assert(rows > 0) by (nonlinear_arith)
            requires
                0 <= y < rows * bands,
                0 <= rows,
        ;
        vstd::arithmetic::div_mod::lemma_fundamental_div_mod(y as int, rows);
        vstd::arithmetic::div_mod::lemma_mod_bound(y as int, rows);
        let k = y as int / rows;
        assert(0 <= k < bands) by (nonlinear_arith)
            requires
                y == rows * k + (y as int % rows),
                0 <= y as int % rows < rows,
                0 <= y < rows * bands,
        ;
        assert(band_rendered(shade, width, rows, k, arrived[k].1));
    }
}

/// The first segment of a band decides what the band contributes.
proof fn lemma_first_arrival_is_emitted(arrived: Seq<(int, Seq<IVec3>)>, band: int, i: int)
    requires
        is_first_arrival(arrived, band, i),
    ensures
        emitted(arrived, band) == arrived[i].1.reverse(),
{
    let k = choose|k: int| is_first_arrival(arrived, band, k);
    assert(is_first_arrival(arrived, band, k));
    assert(k == i);
}

/// A band that has arrived has a first segment.
proof fn lemma_first_arrival_exists(arrived: Seq<(int, Seq<IVec3>)>, band: int, j: int) -> (i:
    int)
    requires
        0 <= j < arrived.len(),
        arrived[j].0 == band,
    ensures
        is_first_arrival(arrived, band, i),
    decreases j,
{
    if exists|k: int| 0 <= k < j && (#[trigger] arrived[k]).0 == band {
        let k = choose|k: int| 0 <= k < j && (#[trigger] arrived[k]).0 == band;
        lemma_first_arrival_exists(arrived, band, k)
    } else {
        j
    }
}

/// The image of `top + 1` bands in write order is the band `top`, its pixels
/// last produced first, followed by the image of the `top` bands below it.
proof fn lemma_band_on_top(width: int, rows: int, top: int, image: spec_fn(int, int) -> IVec3)
    requires
        0 <= width,
        0 <= rows,
        0 <= top,
    ensures
        band_segment(width, rows * top, rows, image).reverse() + scanlines(
            width,
            rows * top,
            image,
        ) == scanlines(width, rows * (top + 1), image),
{
    let band = band_segment(width, rows * top, rows, image);
    let below = scanlines(width, rows * top, image);
    let whole = scanlines(width, rows * (top + 1), image);
    let joined = band.reverse() + below;
    assert(rows * (top + 1) == rows * top + rows) by (nonlinear_arith);
    assert(width * (rows * (top + 1)) == width * rows + width * (rows * top)) by (nonlinear_arith);
    assert(0 <= width * rows && 0 <= rows * top && 0 <= width * (rows * top)) by (nonlinear_arith)
        requires
            0 <= width,
            0 <= rows,
            0 <= top,
    ;
    assert forall|i: int| 0 <= i < whole.len() implies joined[i] == whole[i] by {
        assert(width > 0) by (nonlinear_arith)
            requires
                0 <= i < width * (rows * (top + 1)),
                0 <= width,
        ;
        vstd::arithmetic::div_mod::lemma_fundamental_div_mod(i, width);
        vstd::arithmetic::div_mod::lemma_mod_bound(i, width);
        if i < width * rows {
            let q = i / width;
            let r = i % width;
            assert(0 <= q < rows) by (nonlinear_arith)
                requires
                    i == width * q + r,
                    0 <= r < width,
                    0 <= i < width * rows,
            ;
            let k = width * rows - 1 - i;
            assert(k == width * (rows - 1 - q) + (width - 1 - r)) by (nonlinear_arith)
                requires
                    i == width * q + r,
                    k == width * rows - 1 - i,
            ;
            lemma_cell(width, rows - 1 - q, width - 1 - r);
            assert(joined[i] == band[k]);
        } else {
            let k = i - width * rows;
            vstd::arithmetic::div_mod::lemma_fundamental_div_mod(k, width);
            vstd::arithmetic::div_mod::lemma_mod_bound(k, width);
            let q = k / width;
            let r = k % width;
            assert(i == width * (rows + q) + r) by (nonlinear_arith)
                requires
                    k == width * q + r,
                    k == i - width * rows,
            ;
            lemma_cell(width, rows + q, r);
            assert(joined[i] == below[k]);
        }
    }
    assert(joined =~= whole);
}

/// The pixel in column `col` of the `row`-th row of a stream of rows of
/// `width` pixels stands at `width * row + col`.
proof fn lemma_cell(width: int, row: int, col: int)
    requires
        0 <= col < width,
    ensures
        (width * row + col) / width == row,
        (width * row + col) % width == col,
{
    vstd::arithmetic::mul::lemma_mul_is_commutative(width, row);
    vstd::arithmetic::div_mod::lemma_fundamental_div_mod_converse(
        width * row + col,
        width,
        row,
        col,
    );
}

/// Row `row` of `rows` rows of `width` pixels lies inside the stream.
proof fn lemma_rows_fit(width: int, row: int, rows: int)
    requires
        0 <= width,
        0 <= row < rows,
    ensures
        0 <= width * row,
        width * row + width <= width * rows,
{
    assert(0 <= width * row && width * row + width <= width * rows) by (nonlinear_arith)
        requires
            0 <= width,
            0 <= row < rows,
    ;
}

/// A band below the last one ends at or below the top of the image.
proof fn lemma_band_fits(rows: int, band: int, bands: int)
    requires
        0 <= rows,
        0 <= band < bands,
    ensures
        0 <= rows * band,
        rows * band + rows <= rows * bands,
{
    assert(0 <= rows * band && rows * band + rows <= rows * bands) by (nonlinear_arith)
        requires
            0 <= rows,
            0 <= band < bands,
    ;
}

} // verus!
