//! From a compiled document to the image of its first page.
//!
//! Compiling and rasterizing are done by others. What is decided here is
//! what happens in between and after: which failure is reported, which
//! page is rasterized, how many pages are left out, and how the pixels
//! become an image.
use crate::report::SourceErrorsWithSource;
use crate::resolution::{check_size, too_big, Size, TooBig};
use vstd::prelude::*;
use vstd::std_specs::convert::FromSpecImpl;

verus! {

/// Why no image was rendered.
#[derive(Debug)]
pub enum Error {
    /// The text did not compile.
    Source(SourceErrorsWithSource),
    /// The first page has a side above the ceiling.
    TooBig(TooBig),
    /// The document has no page.
    NoPages,
}

impl From<SourceErrorsWithSource> for Error {
    fn from(errors: SourceErrorsWithSource) -> (error: Error) {
        Error::Source(errors)
    }
}

impl FromSpecImpl<SourceErrorsWithSource> for Error {
    open spec fn obeys_from_spec() -> bool {
        true
    }

    open spec fn from_spec(errors: SourceErrorsWithSource) -> Error {
        Error::Source(errors)
    }
}

impl From<TooBig> for Error {
    fn from(refused: TooBig) -> (error: Error) {
        Error::TooBig(refused)
    }
}

impl FromSpecImpl<TooBig> for Error {
    open spec fn obeys_from_spec() -> bool {
        true
    }

    open spec fn from_spec(refused: TooBig) -> Error {
        Error::TooBig(refused)
    }
}

/// The image of the first page of a document.
#[derive(Debug)]
pub struct Output {
    /// The image, as a PNG file.
    pub image: Vec<u8>,
    /// The number of pages after the first, none of which is in the image.
    /// `None` when the first page is the only one, so the number is never 0.
    pub more_pages: Option<usize>,
}

/// A rectangle of pixels, row by row, each pixel as its red, green, blue
/// and alpha.
#[derive(Debug)]
pub struct Pixmap {
    /// The number of pixels in a row.
    pub width: u32,
    /// The number of rows.
    pub height: u32,
    /// The pixels, the rows one after the other.
    pub pixels: Vec<[u8; 4]>,
}

/// What compiling a text came to. `D` is whatever the rasterizer needs of
/// the document.
pub enum Compiled<D> {
    /// The text did not compile.
    Failed(SourceErrorsWithSource),
    /// The document, and the sizes of its pages in order.
    Document { document: D, pages: Vec<Size> },
}

/// The page of a document that is rendered.
#[derive(Debug, Clone, Copy, PartialEq, Eq, Structural)]
pub struct FirstPage {
    /// The size of the page.
    pub size: Size,
    /// The number of pages after it, if there are any.
    pub more_pages: Option<usize>,
}

/// The pixels as bytes: four for each pixel, in the order of the pixels.
pub open spec fn rgba_bytes(pixels: Seq<[u8; 4]>) -> Seq<u8> {
    Seq::new(4 * pixels.len(), |k: int| pixels[k / 4]@[k % 4])
}

/// The eight bytes with which every PNG file starts.
pub open spec fn png_signature() -> Seq<u8> {
    seq![137u8, 80u8, 78u8, 71u8, 13u8, 10u8, 26u8, 10u8]
}

/// The PNG file that the image crate writes for an image of `width` by
/// `height` pixels of eight bits a channel, whose red, green, blue and
/// alpha are `bytes`.
pub uninterp spec fn png_encoding(bytes: Seq<u8>, width: int, height: int) -> Seq<u8>;

/// Views pixels as their bytes with bytemuck's `cast_slice`. A pixel is
/// four bytes without padding, so the bytes are those of the pixels, one
/// pixel after the other.
#[verifier::external_body]
fn pixel_bytes(pixels: &[[u8; 4]]) -> (bytes: &[u8])
    ensures
        bytes@ == rgba_bytes(pixels@),
{
    bytemuck::cast_slice(pixels)
}

/// Writes a PNG file into memory with the image crate's
/// `write_buffer_with_format`, for the colour type `Rgba8`.
///
/// The contract claims that the file depends on the pixels and the two
/// dimensions alone, and that it starts with the signature that the
/// encoder writes before anything else. It leaves out what the encoder
/// refuses: an image without pixels, and bytes that are not four for each
/// pixel.
#[verifier::external_body]
fn encode_png(bytes: &[u8], width: u32, height: u32) -> (png: Vec<u8>)
    requires
        width > 0,
        height > 0,
        bytes@.len() == 4 * width * height,
    ensures
        png@ == png_encoding(bytes@, width as int, height as int),
        png_signature().is_prefix_of(png@),
{
    let mut writer = std::io::Cursor::new(Vec::new());
    image::write_buffer_with_format(
        &mut writer,
        bytes,
        width,
        height,
        image::ColorType::Rgba8,
        image::ImageFormat::Png,
    ).unwrap();
    writer.into_inner()
}

impl Pixmap {
    /// The rectangle has pixels, and as many as its width and height say.
    pub open spec fn well_formed(&self) -> bool {
        &&& self.width > 0
        &&& self.height > 0
        &&& self.pixels@.len() == self.width * self.height
    }

    /// The PNG file of the pixels.
    pub open spec fn png(&self) -> Seq<u8> {
        png_encoding(rgba_bytes(self.pixels@), self.width as int, self.height as int)
    }

    /// Encodes the pixels as a PNG file of eight bits a channel with alpha.
    pub fn encode(&self) -> (png: Vec<u8>)
        requires
            self.well_formed(),
        ensures
            png@ == self.png(),
            png_signature().is_prefix_of(png@),
    {
        let bytes = pixel_bytes(self.pixels.as_slice());
        assert(bytes@.len() == 4 * self.width * self.height) by (nonlinear_arith)
            requires
                bytes@.len() == 4 * (self.width * self.height),
        ;
        encode_png(bytes, self.width, self.height)
    }
}

/// The number of pages after the first among `pages` pages, if there are
/// any.
pub open spec fn pages_after_first(pages: nat) -> Option<usize> {
    if pages > 1 {
        Some((pages - 1) as usize)
    } else {
        None
    }
}

/// What is rendered of a document whose pages have the sizes `pages`: the
/// first page, unless there is none or it is too big.
pub open spec fn first_page_of(pages: Seq<Size>) -> Result<FirstPage, Error> {
    if pages.len() == 0 {
        Err(Error::NoPages)
    } else {
        match too_big(pages[0]) {
            Some(refused) => Err(Error::TooBig(refused)),
            None => Ok(FirstPage { size: pages[0], more_pages: pages_after_first(pages.len()) }),
        }
    }
}

/// Picks the page to render from the sizes of a document's pages: the
/// first one. A document without pages is refused, and so is one whose
/// first page has a side above the ceiling.
pub fn first_page(pages: &Vec<Size>) -> (result: Result<FirstPage, Error>)
    ensures
        result == first_page_of(pages@),
        result matches Ok(first) ==> {
            &&& first.size == pages@[0]
            &&& first.more_pages is None <==> pages@.len() == 1
            &&& first.more_pages matches Some(more) ==> more >= 1 && more + 1 == pages@.len()
        },
{
    if pages.len() == 0 {
        return Err(Error::NoPages);
    }
    let size = pages[0];
    let more_pages = if pages.len() > 1 {
        Some(pages.len() - 1)
    } else {
        None
    };
    match check_size(size) {
        Ok(_) => Ok(FirstPage { size, more_pages }),
        Err(refused) => Err(Error::from(refused)),
    }
}

impl FirstPage {
    /// The output for this page once it is encoded as `image`.
    pub fn output(self, image: Vec<u8>) -> (output: Output)
        ensures
            output.image == image,
            output.more_pages == self.more_pages,
    {
        Output { image, more_pages: self.more_pages }
    }
}

/// What rendering comes to once a text is compiled to `compiled`, given
/// what the rasterizer may hand back.
///
/// A failed compilation is reported with its diagnostics. A document
/// without a first page within the ceiling is refused. Otherwise the
/// result is the PNG file of some pixels that `rasterize` hands back for
/// the first page, with the number of the pages after it.
pub open spec fn rendered<D, R: FnOnce(D, Size) -> Pixmap>(
    compiled: Compiled<D>,
    rasterize: R,
    result: Result<Output, Error>,
) -> bool {
    match compiled {
        Compiled::Failed(errors) => result == Err::<Output, Error>(Error::Source(errors)),
        Compiled::Document { document, pages } => match first_page_of(pages@) {
            Err(error) => result == Err::<Output, Error>(error),
            Ok(first) => exists|pixmap: Pixmap|
                {
                    &&& call_ensures(rasterize, (document, first.size), pixmap)
                    &&& result matches Ok(output)
                    &&& output.image@ == pixmap.png()
                    &&& png_signature().is_prefix_of(output.image@)
                    &&& output.more_pages == first.more_pages
                },
        },
    }
}

/// Renders the first page of the document that `source` compiles to.
///
/// `compile` turns the text into a document or into diagnostics, and
/// `rasterize` turns the first page of a document into pixels. The text is
/// compiled once. The rasterizer is called once, and only for a first page
/// that is within the ceiling; a failure before that gives an error and no
/// image.
pub fn render<D, C, R>(compile: C, rasterize: R, source: String) -> (result: Result<
    Output,
    Error,
>) where C: FnOnce(String) -> Compiled<D>, R: FnOnce(D, Size) -> Pixmap
    requires
        call_requires(compile, (source,)),
        forall|document: D, size: Size|
            too_big(size) is None ==> call_requires(rasterize, (document, size)),
        forall|document: D, size: Size, pixmap: Pixmap|
            call_ensures(rasterize, (document, size), pixmap) ==> pixmap.well_formed(),
    ensures
        exists|compiled: Compiled<D>|
            call_ensures(compile, (source,), compiled) && rendered(compiled, rasterize, result),
{
    let compiled = compile(source);
    let ghost outcome = compiled;
    let result = match compiled {
        Compiled::Failed(errors) => Err(Error::from(errors)),
        Compiled::Document { document, pages } => match first_page(&pages) {
            Err(error) => Err(error),
            Ok(first) => {
                let pixmap = rasterize(document, first.size);
                Ok(first.output(pixmap.encode()))
            },
        },
    };
    assert(rendered(outcome, rasterize, result));
    result
}

} // verus!
