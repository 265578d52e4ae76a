//! The image store: which uploads are images, the name (an MD5 digest) under
//! which each image is kept, and where the files of a group lie.
use rand::Rng;
use vstd::prelude::*;

use crate::number::{decimal, push_decimal};
use crate::text::{chars_of, find_char, find_char_in, push_range, string_from_chars};

verus! {

/// The directory under which each group has a directory of images.
pub const IMAGE_DIR: &'static str = "images";

/// The first bytes of a GIF file.
pub open spec fn gif_signature() -> Seq<u8> {
    seq![0x47u8, 0x49u8, 0x46u8]
}

/// The first bytes of a JPEG file.
pub open spec fn jpeg_signature() -> Seq<u8> {
    seq![0xFFu8, 0xD8u8, 0xFFu8]
}

/// The first bytes of a PNG (or APNG) file.
pub open spec fn png_signature() -> Seq<u8> {
    seq![0x89u8, 0x50u8, 0x4Eu8, 0x47u8, 0x0Du8, 0x0Au8, 0x1Au8, 0x0Au8]
}

/// Whether `buf` is at least as long as `signature` and begins with it.
pub open spec fn begins_with(buf: Seq<u8>, signature: Seq<u8>) -> bool {
    signature.len() <= buf.len() && buf.take(signature.len() as int) == signature
}

/// Whether `buf` begins like a GIF, JPEG or PNG file.
pub open spec fn looks_like_image(buf: Seq<u8>) -> bool {
    begins_with(buf, gif_signature()) || begins_with(buf, jpeg_signature()) || begins_with(
        buf,
        png_signature(),
    )
}

/// Whether `is_image` can look at `buf`: the signatures are compared in turn
/// (GIF, JPEG, PNG), each against as many bytes as it has, and `buf` must hold
/// them.
pub open spec fn image_check_defined(buf: Seq<u8>) -> bool {
    buf.len() >= 3 && (begins_with(buf, gif_signature()) || begins_with(buf, jpeg_signature())
        || buf.len() >= 8)
}

/// The MD5 digest of `data` (16 bytes), as the `md5` crate computes it.
pub uninterp spec fn md5_digest(data: Seq<u8>) -> Seq<u8>;

/// The lowercase hexadecimal digit for `d` (`0 <= d < 16`).
pub open spec fn hex_digit(d: int) -> char {
    if d < 10 {
        (d + 48) as char
    } else {
        (d - 10 + 97) as char
    }
}

/// `bytes` written as lowercase hexadecimal, two digits a byte.
pub open spec fn lower_hex(bytes: Seq<u8>) -> Seq<char>
    decreases bytes.len(),
{
    if bytes.len() == 0 {
        seq![]
    } else {
        lower_hex(bytes.drop_last()) + seq![
            hex_digit((bytes.last() / 16) as int),
            hex_digit((bytes.last() % 16) as int),
        ]
    }
}

/// The directory that holds the images of `group`.
pub open spec fn group_dir(group: i64) -> Seq<char> {
    IMAGE_DIR@ + seq!['/'] + decimal(group as int)
}

/// The file that holds the image of `group` named `name`.
pub open spec fn image_path(group: i64, name: Seq<char>) -> Seq<char> {
    group_dir(group) + seq!['/'] + name + ".image"@
}

/// The names of images that the file names `names` give: the part of each name
/// before its first `.`; a name without `.` gives none.
pub open spec fn image_names(names: Seq<Seq<char>>) -> Seq<Seq<char>>
    decreases names.len(),
{
    if names.len() == 0 {
        seq![]
    } else {
        image_names(names.drop_last()) + match find_char(names.last(), '.') {
            Some(k) => seq![names.last().take(k as int)],
            None => seq![],
        }
    }
}

/// Whether `x` is one of the file names `names` up to (not including) its first `.`.
pub open spec fn cut_from_some_name(names: Seq<Seq<char>>, x: Seq<char>) -> bool {
    exists|j: int, k: nat|
        #![trigger names[j].take(k as int)]
        0 <= j < names.len() && find_char(names[j], '.') == Some(k) && x == names[j].take(k as int)
}

/// Each image name comes from one of the file names: it is that file name up to
/// (not including) its first `.`.
pub proof fn lemma_image_names_from(names: Seq<Seq<char>>)
    ensures
        forall|i: int|
            0 <= i < image_names(names).len() ==> cut_from_some_name(
                names,
                #[trigger] image_names(names)[i],
            ),
    decreases names.len(),
{
    if names.len() > 0 {
        let rest = names.drop_last();
        lemma_image_names_from(rest);
        assert forall|i: int|
            0 <= i < image_names(names).len() implies cut_from_some_name(
            names,
            #[trigger] image_names(names)[i],
        ) by {
            let r = image_names(names);
            if i < image_names(rest).len() {
                assert(r[i] == image_names(rest)[i]);
                assert(cut_from_some_name(rest, image_names(rest)[i]));
                let (j, k) = choose|j: int, k: nat|
                    #![trigger rest[j].take(k as int)]
                    0 <= j < rest.len() && find_char(rest[j], '.') == Some(k) && image_names(
                        rest,
                    )[i] == rest[j].take(k as int);
                assert(names[j] == rest[j]);
                assert(names[j].take(k as int) == rest[j].take(k as int));
            } else {
                let j = names.len() - 1;
                assert(names[j] == names.last());
                match find_char(names.last(), '.') {
                    Some(k) => {
                        assert(names[j].take(k as int) == r[i]);
                    },
                    None => {
                        assert(r =~= image_names(rest));
                    },
                }
            }
        }
    }
}

/// Whether `buf` begins with `start`.
fn check(start: &[u8], buf: &[u8]) -> (b: bool)
    requires
        start@.len() <= buf@.len(),
    ensures
        b == begins_with(buf@, start@),
{
    let mut i: usize = 0;
    while i < start.len()
        invariant
            start@.len() <= buf@.len(),
            0 <= i <= start@.len(),
            forall|j: int| 0 <= j < i ==> buf@[j] == start@[j],
        decreases start@.len() - i,
    {
        if start[i] != buf[i] {
            assert(buf@.take(start@.len() as int)[i as int] != start@[i as int]);
            return false;
        }
        i = i + 1;
    }
    assert(buf@.take(start@.len() as int) =~= start@);
    true
}

/// Whether `buf` begins like a GIF, JPEG or PNG file (jpeg/jpg, png/apng, gif).
pub fn is_image(buf: &[u8]) -> (b: bool)
    requires
        image_check_defined(buf@),
    ensures
        b == looks_like_image(buf@),
{
    let gif: [u8; 3] = [0x47u8, 0x49u8, 0x46u8];
    let jpeg: [u8; 3] = [0xFFu8, 0xD8u8, 0xFFu8];
    let png: [u8; 8] = [0x89u8, 0x50u8, 0x4Eu8, 0x47u8, 0x0Du8, 0x0Au8, 0x1Au8, 0x0Au8];
    assert(gif@ =~= gif_signature());
    assert(jpeg@ =~= jpeg_signature());
    assert(png@ =~= png_signature());
    check(gif.as_slice(), buf) || check(jpeg.as_slice(), buf) || check(png.as_slice(), buf)
}

/// Whether `buf` begins like an image; `None` where `buf` is too short for the
/// comparisons that `is_image` makes.
pub fn checked_is_image(buf: &[u8]) -> (r: Option<bool>)
    ensures
        r == (if image_check_defined(buf@) {
            Some(looks_like_image(buf@))
        } else {
            None
        }),
{
    let gif: [u8; 3] = [0x47u8, 0x49u8, 0x46u8];
    let jpeg: [u8; 3] = [0xFFu8, 0xD8u8, 0xFFu8];
    assert(gif@ =~= gif_signature());
    assert(jpeg@ =~= jpeg_signature());
    if buf.len() < 3 {
        return None;
    }
    if buf.len() < 8 && !check(gif.as_slice(), buf) && !check(jpeg.as_slice(), buf) {
        return None;
    }
    Some(is_image(buf))
}

/// The MD5 digest of `data`, computed by `md5::compute`.
#[verifier::external_body]
fn md5_compute(data: &[u8]) -> (r: [u8; 16])
    ensures
        r@ == md5_digest(data@),
{
    md5::compute(data).0
}

/// The lowercase hexadecimal digit for `d`.
fn hex_digit_char(d: u8) -> (c: char)
    requires
        d < 16,
    ensures
        c == hex_digit(d as int),
{
    if d < 10 {
        (48u8 + d) as char
    } else {
        (87u8 + d) as char
    }
}

/// The MD5 digest of `buf` in lowercase hexadecimal, as `format!("{:x}", md5::compute(buf))`
/// writes it.
pub fn compute_md5sum(buf: &[u8]) -> (r: String)
    ensures
        r@ == lower_hex(md5_digest(buf@)),
        r@.len() == 32,
{
    let digest = md5_compute(buf);
    let mut out: Vec<char> = Vec::new();
    let mut i: usize = 0;
    assert(digest@.take(0) =~= Seq::<u8>::empty());
    while i < 16
        invariant
            0 <= i <= 16,
            digest@.len() == 16,
            out@ == lower_hex(digest@.take(i as int)),
            out@.len() == 2 * i,
        decreases 16 - i,
    {
        let b = digest[i];
        out.push(hex_digit_char(b / 16));
        out.push(hex_digit_char(b % 16));
        assert(digest@.take(i + 1).drop_last() =~= digest@.take(i as int));
        assert(digest@.take(i + 1).last() == b);
        assert(out@ =~= lower_hex(digest@.take(i + 1)));
        i = i + 1;
    }
    assert(digest@.take(16) =~= digest@);
    string_from_chars(&out)
}

/// The directory that holds the images of `group`.
pub fn image_group_dir(group: i64) -> (r: String)
    ensures
        r@ == group_dir(group),
{
    let mut out = chars_of(IMAGE_DIR);
    out.push('/');
    push_decimal(&mut out, group);
    assert(out@ =~= group_dir(group));
    string_from_chars(&out)
}

/// The file that holds the image of `group` named `name`.
pub fn image_file_path(group: i64, name: &str) -> (r: String)
    ensures
        r@ == image_path(group, name@),
{
    let mut out = chars_of(IMAGE_DIR);
    out.push('/');
    push_decimal(&mut out, group);
    out.push('/');
    let n = chars_of(name);
    push_range(&mut out, &n, 0, n.len());
    let ext = chars_of(".image");
    push_range(&mut out, &ext, 0, ext.len());
    assert(n@.subrange(0, n@.len() as int) =~= n@);
    assert(ext@.subrange(0, ext@.len() as int) =~= ext@);
    assert(out@ =~= image_path(group, name@));
    string_from_chars(&out)
}

/// The names of the images among the file names `names`: the part of each file
/// name before its first `.`.
pub fn get_all_md5(names: &Vec<String>) -> (r: Vec<String>)
    ensures
        r.deep_view() == image_names(names.deep_view()),
{
    let mut r: Vec<String> = Vec::new();
    let mut i: usize = 0;
    let ghost all = names.deep_view();
    assert(all.take(0) =~= Seq::<Seq<char>>::empty());
    while i < names.len()
        invariant
            0 <= i <= names@.len(),
            all == names.deep_view(),
            all.len() == names@.len(),
            r.deep_view() == image_names(all.take(i as int)),
        decreases names@.len() - i,
    {
        let v = chars_of(names[i].as_str());
        assert(v@ == all[i as int]);
        assert(all.take(i + 1).drop_last() =~= all.take(i as int));
        assert(all.take(i + 1).last() == all[i as int]);
        assert(v@.subrange(0, v@.len() as int) =~= v@);
        match find_char_in(&v, 0, v.len(), '.') {
            Some(k) => {
                let mut stem: Vec<char> = Vec::new();
                push_range(&mut stem, &v, 0, k);
                assert(v@.take(k as int) =~= v@.subrange(0, k as int));
                let ghost old_r = r.deep_view();
                r.push(string_from_chars(&stem));
                assert(r.deep_view() =~= old_r.push(v@.take(k as int)));
                assert(r.deep_view() =~= image_names(all.take(i + 1)));
            },
            None => {
                assert(r.deep_view() =~= image_names(all.take(i + 1)));
            },
        }
        i = i + 1;
    }
    assert(all.take(names@.len() as int) =~= all);
    r
}

/// A number below `n`, drawn by `rand::thread_rng().gen_range(0..n)`.
#[verifier::external_body]
fn random_below(n: usize) -> (r: usize)
    requires
        n > 0,
    ensures
        r < n,
{
    rand::thread_rng().gen_range(0..n)
}

/// The file of one of the images named `names` of `group`, drawn at random.
pub fn choose_image(group: i64, names: &Vec<String>) -> (r: String)
    requires
        names@.len() > 0,
    ensures
        exists|i: int| 0 <= i < names@.len() && r@ == image_path(group, #[trigger] names@[i]@),
{
    let i = random_below(names.len());
    let r = image_file_path(group, names[i].as_str());
    assert(r@ == image_path(group, names@[i as int]@));
    r
}

} // verus!
