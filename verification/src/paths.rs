//! File locations the editor works out: the directory that images of the
//! open document are found relative to, and where a downloaded image is
//! cached.
use vstd::prelude::*;
use crate::text::{chars_of, string_of, concat};
use crate::markdown::opt_view;
use crate::app::App;

verus! {

/// What `Path::parent` gives for a path: the path without its last
/// component, or `None` for a root or an empty path.
pub uninterp spec fn path_parent(p: Seq<char>) -> Option<Seq<char>>;

/// What std's `DefaultHasher` (as `DefaultHasher::new` builds it) gives
/// for a string.
pub uninterp spec fn default_hash(s: Seq<char>) -> u64;

/// `Path::parent` of std, the parent taken as text. Which component is cut
/// and how separators are read stays unsaid here: the result is named by
/// [`path_parent`].
#[verifier::external_body]
fn parent_of(p: &str) -> (r: Option<String>)
    ensures
        opt_view(r) == path_parent(p@),
{
    match std::path::Path::new(p).parent() {
        Some(q) => Some(q.to_string_lossy().into_owned()),
        None => None,
    }
}

/// `BuildHasher::hash_one` of std with the default builder of
/// `DefaultHasher`: the `str` hashed into `DefaultHasher::new()`, then
/// `finish`. The hash function is std's and stays unsaid here: the result
/// is named by [`default_hash`].
#[verifier::external_body]
fn hash_of(s: &str) -> (r: u64)
    ensures
        r == default_hash(s@),
{
    let builder = std::hash::BuildHasherDefault::<std::collections::hash_map::DefaultHasher>::default();
    std::hash::BuildHasher::hash_one(&builder, s)
}

/// The directory the images of the open document are found relative to:
/// the document's directory, or `.` when it has none (or no path).
pub open spec fn image_base_dir_spec(app: App) -> Seq<char> {
    match app.file_path {
        Some(p) => match path_parent(p@) {
            Some(d) => if d.len() > 0 {
                d
            } else {
                "."@
            },
            None => "."@,
        },
        None => "."@,
    }
}

/// The directory the images of the open document are found relative to.
pub fn image_base_dir(app: &App) -> (r: String)
    ensures
        r@ == image_base_dir_spec(*app),
{
    match &app.file_path {
        Some(p) => match parent_of(p.as_str()) {
            Some(d) => if !d.as_str().is_empty() {
                d
            } else {
                String::from_str(".")
            },
            None => String::from_str("."),
        },
        None => String::from_str("."),
    }
}

/// A path with a relative part added, as `PathBuf::push` does on Unix: a
/// separator goes between them unless the path is empty or already ends
/// with one.
pub open spec fn join_spec(base: Seq<char>, part: Seq<char>) -> Seq<char> {
    if base.len() > 0 && base.last() != '/' {
        base + seq!['/'] + part
    } else {
        base + part
    }
}

pub(crate) fn join_part(base: &Vec<char>, part: &str) -> (r: Vec<char>)
    ensures
        r@ == join_spec(base@, part@),
{
    let p = chars_of(part);
    if base.len() > 0 && base[base.len() - 1] != '/' {
        let mut b = concat(base, &Vec::new());
        b.push('/');
        concat(&b, &p)
    } else {
        concat(base, &p)
    }
}

/// The lower-case hexadecimal digit of `d`.
pub open spec fn hex_digit(d: nat) -> char {
    if d < 10 {
        crate::text::digit(d)
    } else if d == 10 {
        'a'
    } else if d == 11 {
        'b'
    } else if d == 12 {
        'c'
    } else if d == 13 {
        'd'
    } else if d == 14 {
        'e'
    } else {
        'f'
    }
}

/// The last `k` hexadecimal digits of `n`, zeros in front.
pub open spec fn hex_digits(n: nat, k: nat) -> Seq<char>
    decreases k,
{
    if k == 0 {
        seq![]
    } else {
        hex_digits(n / 16, (k - 1) as nat).push(hex_digit(n % 16))
    }
}

fn hex_digit_of(d: u64) -> (c: char)
    requires
        d < 16,
    ensures
        c == hex_digit(d as nat),
{
    if d < 10 {
        let v = crate::text::decimal_chars(d as usize);
        v[0]
    } else if d == 10 {
        'a'
    } else if d == 11 {
        'b'
    } else if d == 12 {
        'c'
    } else if d == 13 {
        'd'
    } else if d == 14 {
        'e'
    } else {
        'f'
    }
}

fn hex_chars(n: u64, k: u64) -> (r: Vec<char>)
    ensures
        r@ == hex_digits(n as nat, k as nat),
    decreases k,
{
    if k == 0 {
        Vec::new()
    } else {
        let mut v = hex_chars(n / 16, k - 1);
        v.push(hex_digit_of(n % 16));
        v
    }
}

/// Where an image downloaded from `url` is cached under `cache_root`:
/// `poneglyph/images/` and the URL's hash in sixteen hexadecimal digits.
pub open spec fn remote_cache_path_spec(cache_root: Seq<char>, url: Seq<char>) -> Seq<char> {
    join_spec(
        join_spec(join_spec(cache_root, "poneglyph"@), "images"@),
        hex_digits(default_hash(url) as nat, 16),
    )
}

/// Where an image downloaded from `url` is cached under `cache_root`.
pub fn remote_cache_path(cache_root: &str, url: &str) -> (r: String)
    ensures
        r@ == remote_cache_path_spec(cache_root@, url@),
{
    let h = hash_of(url);
    let name = string_of(&hex_chars(h, 16));
    let a = join_part(&chars_of(cache_root), "poneglyph");
    let b = join_part(&a, "images");
    let c = join_part(&b, name.as_str());
    string_of(&c)
}

} // verus!
