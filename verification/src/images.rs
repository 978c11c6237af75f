//! Inline images of the preview: where an image is read from, and how many
//! cells it takes once fitted to the space it is given.
use vstd::prelude::*;
use crate::text::{chars_of, string_of, find, find_in};
use crate::paths::{join_spec, join_part};

verus! {

/// What `Path::is_absolute` of std gives for a path.
pub uninterp spec fn path_absolute(p: Seq<char>) -> bool;

/// The width and height, in pixels, of the image that
/// `image::load_from_memory` decodes from some bytes; `None` when they do
/// not decode.
pub uninterp spec fn decoded_size(bytes: Seq<u8>) -> Option<(u32, u32)>;

/// The cells, as (columns, rows), that `ratatui_image`'s
/// `Resize::Fit(None).size_for` gives for the image decoded from `bytes`,
/// with a font cell of `font` pixels and `avail` cells available.
pub uninterp spec fn fitted_cells(bytes: Seq<u8>, font: (u16, u16), avail: (u16, u16)) -> (
    u16,
    u16,
);

/// `Path::is_absolute` of std. Which paths count as absolute depends on the
/// platform's path rules and stays unsaid here: the result is named by
/// [`path_absolute`].
#[verifier::external_body]
fn is_absolute(p: &str) -> (r: bool)
    ensures
        r == path_absolute(p@),
{
    std::path::Path::new(p).is_absolute()
}

/// `image::load_from_memory` of the `image` crate, giving the decoded
/// image's width and height, or `None` when the bytes are no image of a
/// format the crate reads. What decodes to what stays unsaid here: the
/// result is named by [`decoded_size`].
#[verifier::external_body]
fn decode_size(bytes: &[u8]) -> (r: Option<(u32, u32)>)
    ensures
        r == decoded_size(bytes@),
{
    match image::load_from_memory(bytes) {
        Ok(i) => Some((i.width(), i.height())),
        Err(_) => None,
    }
}

/// `Resize::Fit(None).size_for` of `ratatui_image`, on the image that
/// `image::load_from_memory` decodes from `bytes`: the cells the image takes
/// when scaled down, keeping its aspect ratio, to fit `avail` cells of
/// `font` pixels. The rounding it does in floating point stays unsaid
/// here: the result is named by [`fitted_cells`].
#[verifier::external_body]
fn fit_cells(bytes: &[u8], font: (u16, u16), avail: (u16, u16)) -> (r: (u16, u16))
    requires
        decoded_size(bytes@) is Some,
    ensures
        r == fitted_cells(bytes@, font, avail),
{
    match image::load_from_memory(bytes) {
        Ok(i) => {
            let s = ratatui_image::Resize::Fit(None).size_for(
                &i,
                ratatui_image::FontSize::new(font.0, font.1),
                ratatui::layout::Size::new(avail.0, avail.1),
            );
            (s.width, s.height)
        },
        Err(_) => (0, 0),
    }
}

/// Where an image's bytes come from: nowhere, a URL, or a file.
#[derive(Clone, Debug, PartialEq, Eq)]
pub enum ImageSource {
    Missing,
    Remote(String),
    File(String),
}

/// The value an [`ImageSource`] stands for.
pub enum SourceView {
    Missing,
    Remote(Seq<char>),
    File(Seq<char>),
}

impl DeepView for ImageSource {
    type V = SourceView;

    open spec fn deep_view(&self) -> SourceView {
        match self {
            ImageSource::Missing => SourceView::Missing,
            ImageSource::Remote(u) => SourceView::Remote(u@),
            ImageSource::File(p) => SourceView::File(p@),
        }
    }
}

/// Where the image a markdown target names is read from: nothing for an
/// empty target; a target with `://` is a URL, fetched only when remote
/// images are allowed; an absolute path is read as it is, any other path
/// relative to `base_dir`.
pub open spec fn image_source_spec(target: Seq<char>, allow_remote: bool, base_dir: Seq<char>) -> SourceView {
    if target.len() == 0 {
        SourceView::Missing
    } else if find(target, "://"@) is Some {
        if allow_remote {
            SourceView::Remote(target)
        } else {
            SourceView::Missing
        }
    } else if path_absolute(target) {
        SourceView::File(target)
    } else {
        SourceView::File(join_spec(base_dir, target))
    }
}

/// Where the image a markdown target names is read from.
pub fn image_source(target: &str, allow_remote: bool, base_dir: &str) -> (r: ImageSource)
    ensures
        r.deep_view() == image_source_spec(target@, allow_remote, base_dir@),
{
    let t = chars_of(target);
    if t.len() == 0 {
        return ImageSource::Missing;
    }
    let sep = chars_of("://");
    if find_in(&t, &sep, 0).is_some() {
        if allow_remote {
            ImageSource::Remote(string_of(&t))
        } else {
            ImageSource::Missing
        }
    } else if is_absolute(target) {
        ImageSource::File(string_of(&t))
    } else {
        let b = chars_of(base_dir);
        ImageSource::File(string_of(&join_part(&b, target)))
    }
}

/// `x`, but one at least.
pub open spec fn at_least_one(x: u16) -> u16 {
    if x > 1 {
        x
    } else {
        1
    }
}

/// The view of optional bytes.
pub open spec fn bytes_view(b: Option<&[u8]>) -> Option<Seq<u8>> {
    match b {
        Some(s) => Some(s@),
        None => None,
    }
}

/// The cells an image takes in the preview: none for an empty target, for
/// bytes that could not be read, or for bytes that do not decode;
/// otherwise the fitted size of the image (font cell and space each one
/// at least in both directions), one cell at least in both directions.
pub open spec fn fit_size_spec(
    target: Seq<char>,
    bytes: Option<Seq<u8>>,
    font: (u16, u16),
    avail_cols: u16,
    max_rows: u16,
) -> Option<(u16, u16)> {
    if target.len() == 0 {
        None
    } else {
        match bytes {
            None => None,
            Some(b) => match decoded_size(b) {
                None => None,
                Some(_) => {
                    let s = fitted_cells(
                        b,
                        (at_least_one(font.0), at_least_one(font.1)),
                        (at_least_one(avail_cols), at_least_one(max_rows)),
                    );
                    Some((at_least_one(s.0), at_least_one(s.1)))
                },
            },
        }
    }
}

fn max_one(x: u16) -> (r: u16)
    ensures
        r == at_least_one(x),
{
    if x > 1 {
        x
    } else {
        1
    }
}

/// The cells the image named by `target` takes when fitted, keeping its
/// aspect ratio, into `avail_cols` by `max_rows` cells; `bytes` is what was
/// read from the target's source (`None` when nothing could be read) and
/// `font` the size of a cell in pixels.
pub fn fit_size(target: &str, bytes: Option<&[u8]>, font: (u16, u16), avail_cols: u16, max_rows: u16) -> (r:
    Option<(u16, u16)>)
    ensures
        r == fit_size_spec(target@, bytes_view(bytes), font, avail_cols, max_rows),
        r matches Some((w, h)) ==> 1 <= w && 1 <= h,
{
    if chars_of(target).len() == 0 {
        return None;
    }
    match bytes {
        None => None,
        Some(b) => match decode_size(b) {
            None => None,
            Some(_) => {
                let s = fit_cells(
                    b,
                    (max_one(font.0), max_one(font.1)),
                    (max_one(avail_cols), max_one(max_rows)),
                );
                Some((max_one(s.0), max_one(s.1)))
            },
        },
    }
}

} // verus!
