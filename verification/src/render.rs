//! The frame renderer: one colour for each pixel, lit where the pixel's ray
//! hits the scene.
use crate::camera::{CameraModel, CameraPose};
use crate::ray::Ray;
use crate::scene::{misses_all, Scene};
use crate::triangle::TriangleModel;
use vstd::arithmetic::div_mod::{
    lemma_div_pos_is_pos, lemma_fundamental_div_mod, lemma_fundamental_div_mod_converse,
    lemma_mod_bound,
};
use vstd::prelude::*;

verus! {

/// A colour of four 8-bit channels.
#[derive(Clone, Copy, Debug, PartialEq, Eq, Structural)]
pub struct Pixel {
    pub r: u8,
    pub g: u8,
    pub b: u8,
    pub a: u8,
}

/// The alpha of every rendered pixel: opaque, one step short of full.
pub const ALPHA: u8 = 254;

/// The colour of a pixel whose ray hits the scene: white at full intensity.
pub open spec fn lit_pixel() -> Pixel {
    Pixel { r: 255, g: 255, b: 255, a: ALPHA }
}

/// The colour of a pixel whose ray hits nothing: black.
pub open spec fn unlit_pixel() -> Pixel {
    Pixel { r: 0, g: 0, b: 0, a: ALPHA }
}

/// The colour of the pixel in column `x` and row `y`: lit exactly when the ray
/// that the camera casts for the pixel hits a triangle of the scene.
///
/// On the silhouette of the scene the intersection test decides: a ray through
/// an edge or a vertex of a triangle hits it, and a ray that meets the plane of
/// a triangle at less than the threshold angle of the parallel test does not.
pub open spec fn pixel_color(scene: Seq<TriangleModel>, camera: CameraModel, x: int, y: int)
    -> Pixel {
    if misses_all(scene, camera.ray(x, y)) {
        unlit_pixel()
    } else {
        lit_pixel()
    }
}

/// The model of a [`PixelBuffer`]: `height` rows of `width` pixels, row after row.
pub struct FrameModel {
    pub width: int,
    pub height: int,
    pub pixels: Seq<Pixel>,
}

impl FrameModel {
    /// The pixel in column `x` and row `y`.
    pub open spec fn pixel(self, x: int, y: int) -> Pixel {
        self.pixels[y * self.width + x]
    }
}

/// The frame of the given size that shows `scene` as seen by `camera`.
pub open spec fn frame(scene: Seq<TriangleModel>, camera: CameraModel, width: int, height: int)
    -> FrameModel {
    FrameModel {
        width,
        height,
        pixels: Seq::new(
            (width * height) as nat,
            |i: int| pixel_color(scene, camera, i % width, i / width),
        ),
    }
}

/// The frame of the given size with every pixel unlit.
pub open spec fn unlit_frame(width: int, height: int) -> FrameModel {
    FrameModel {
        width,
        height,
        pixels: Seq::new((width * height) as nat, |i: int| unlit_pixel()),
    }
}

/// A place inside a frame has a row-major index inside the frame's pixels, and
/// column and row are recovered from that index by remainder and quotient.
pub proof fn lemma_row_major(width: int, height: int, x: int, y: int)
    requires
        0 <= x < width,
        0 <= y < height,
    ensures
        0 <= y * width + x < width * height,
        (y * width + x) % width == x,
        (y * width + x) / width == y,
{
    assert(y * width + x < width * height) by (nonlinear_arith)
        requires
            0 <= x < width,
            0 <= y < height,
    {
        assert((y + 1) * width <= height * width);
    }
    assert(0 <= y * width) by (nonlinear_arith)
        requires
            0 <= y,
            0 < width,
    ;
    lemma_fundamental_div_mod_converse(y * width + x, width, y, x);
}

/// An index inside a frame's pixels names a column and a row inside the frame.
pub proof fn lemma_column_and_row(width: int, height: int, i: int)
    requires
        0 <= i < width * height,
        0 <= width,
        0 <= height,
    ensures
        0 < width,
        0 <= i % width < width,
        0 <= i / width < height,
{
    assert(width != 0) by (nonlinear_arith)
        requires
            0 <= i < width * height,
    ;
    lemma_mod_bound(i, width);
    lemma_fundamental_div_mod(i, width);
    lemma_div_pos_is_pos(i, width);
    assert(i / width < height) by (nonlinear_arith)
        requires
            i == width * (i / width) + i % width,
            0 <= i % width,
            i < width * height,
            0 < width,
    ;
}

/// In the frame that shows a scene, every pixel has the colour of its place.
pub proof fn lemma_frame_pixel(
    scene: Seq<TriangleModel>,
    camera: CameraModel,
    width: int,
    height: int,
    x: int,
    y: int,
)
    requires
        0 <= x < width,
        0 <= y < height,
    ensures
        frame(scene, camera, width, height).pixel(x, y) == pixel_color(scene, camera, x, y),
{
    lemma_row_major(width, height, x, y);
}

impl Pixel {
    /// White at full intensity.
    pub fn lit() -> (pixel: Pixel)
        ensures
            pixel == lit_pixel(),
    {
        Pixel { r: 255, g: 255, b: 255, a: ALPHA }
    }

    /// Black.
    pub fn unlit() -> (pixel: Pixel)
        ensures
            pixel == unlit_pixel(),
    {
        Pixel { r: 0, g: 0, b: 0, a: ALPHA }
    }
}

/// The colour of the pixel in column `x` and row `y` of a frame that shows
/// `scene` as seen by `camera`.
pub fn update_pixel(x: u32, y: u32, scene: &Scene, camera: &CameraPose) -> (pixel: Pixel)
    ensures
        pixel == pixel_color(scene@, camera@, x as int, y as int),
{
    let ray: Ray = camera.ray(x, y);
    match scene.intersect_scene(&ray) {
        Some(_) => Pixel::lit(),
        None => Pixel::unlit(),
    }
}

/// A grid of pixels, `height` rows of `width` pixels, stored row after row.
#[derive(Debug)]
pub struct PixelBuffer {
    width: u32,
    height: u32,
    pixels: Vec<Pixel>,
}

impl View for PixelBuffer {
    type V = FrameModel;

    closed spec fn view(&self) -> FrameModel {
        FrameModel { width: self.width as int, height: self.height as int, pixels: self.pixels@ }
    }
}

impl PixelBuffer {
    #[verifier::type_invariant]
    spec fn well_formed(self) -> bool {
        self.pixels@.len() == self.width * self.height
    }

    /// A buffer of the given size with every pixel unlit, or `None` when the
    /// number of pixels exceeds what a `usize` can count.
    pub fn new(width: u32, height: u32) -> (buffer: Option<PixelBuffer>)
        ensures
            buffer is Some <==> width * height <= usize::MAX,
            buffer matches Some(b) ==> b@ == unlit_frame(width as int, height as int),
    {
        assert(0 <= width * height <= u64::MAX) by (nonlinear_arith)
            requires
                0 <= width <= u32::MAX,
                0 <= height <= u32::MAX,
        ;
        let total: u64 = (width as u64) * (height as u64);
        if total > usize::MAX as u64 {
            return None;
        }
        let count: usize = total as usize;
        let mut pixels: Vec<Pixel> = Vec::new();
        let mut i: usize = 0;
        while i < count
            invariant
                i <= count,
                pixels@.len() == i,
                forall|j: int| 0 <= j < i ==> pixels@[j] == unlit_pixel(),
            decreases count - i,
        {
            pixels.push(Pixel::unlit());
            i += 1;
        }
        let buffer = PixelBuffer { width, height, pixels };
        assert(buffer@.pixels =~= unlit_frame(width as int, height as int).pixels);
        Some(buffer)
    }

    /// The number of columns.
    pub fn width(&self) -> (width: u32)
        ensures
            width == self@.width,
    {
        self.width
    }

    /// The number of rows.
    pub fn height(&self) -> (height: u32)
        ensures
            height == self@.height,
    {
        self.height
    }

    /// The pixel in column `x` and row `y`, or `None` outside the buffer.
    pub fn get(&self, x: u32, y: u32) -> (pixel: Option<Pixel>)
        ensures
            pixel is Some <==> x < self@.width && y < self@.height,
            pixel matches Some(p) ==> p == self@.pixel(x as int, y as int),
    {
        if x < self.width && y < self.height {
            let width: usize = self.width as usize;
            let count: usize = self.pixels.len();
            proof {
                use_type_invariant(self);
                assert(count == width * self.height);
                lemma_row_major(width as int, self.height as int, x as int, y as int);
                assert(0 <= y * width) by (nonlinear_arith)
                    requires
                        0 <= y,
                        0 <= width,
                ;
            }
            let row_start: usize = (y as usize) * width;
            Some(self.pixels[row_start + (x as usize)])
        } else {
            None
        }
    }

    /// The pixels, row after row.
    pub fn pixels(&self) -> (pixels: &Vec<Pixel>)
        ensures
            pixels@ == self@.pixels,
            pixels@.len() == self@.width * self@.height,
    {
        proof {
            use_type_invariant(self);
        }
        &self.pixels
    }
}

/// Renders one frame: every pixel of `buffer` is derived anew from `scene` and
/// `camera`; the size of the buffer stays as it is.
pub fn render_frame(scene: &Scene, camera: &CameraPose, buffer: &mut PixelBuffer)
    ensures
        final(buffer)@ == frame(scene@, camera@, old(buffer)@.width, old(buffer)@.height),
{
    proof {
        use_type_invariant(&*buffer);
    }
    let width: usize = buffer.width as usize;
    let count: usize = buffer.pixels.len();
    let mut pixels: Vec<Pixel> = Vec::new();
    let mut i: usize = 0;
    while i < count
        invariant
            i <= count,
            count == width * buffer.height,
            width == buffer.width,
            pixels@.len() == i,
            forall|j: int|
                0 <= j < i ==> pixels@[j] == pixel_color(scene@, camera@, j % (width as int), j / (
                width as int)),
        decreases count - i,
    {
        proof {
            lemma_column_and_row(width as int, buffer.height as int, i as int);
        }
        let x: u32 = (i % width) as u32;
        let y: u32 = (i / width) as u32;
        pixels.push(update_pixel(x, y, scene, camera));
        i += 1;
    }
    buffer.pixels = pixels;
    assert(buffer@.pixels =~= frame(
        scene@,
        camera@,
        old(buffer)@.width,
        old(buffer)@.height,
    ).pixels);
}

} // verus!
