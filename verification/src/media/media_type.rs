//! The media type of a file, told from the extension of its path.
//!
//! Paths are read as bytes. The file name is what follows the last `/`;
//! the extension is what follows the last `.` of the file name, unless that
//! `.` is the first byte of the name. Letter case is ignored for the letters
//! `A` to `Z`.

use vstd::prelude::*;
use vstd::slice::slice_subrange;
use vstd::string::StringSliceAdditionalSpecFns;

verus! {

/// The picture formats that are indexed.
#[derive(Clone, Copy, Debug, PartialEq, Eq, Structural)]
pub enum ImageType {
    Jpeg,
    Heic,
}

/// The video formats that are indexed.
#[derive(Clone, Copy, Debug, PartialEq, Eq, Structural)]
pub enum VideoType {
    Mp4,
    Mov,
}

/// The kind of media that a file holds.
#[derive(Clone, Copy, Debug, PartialEq, Eq, Structural)]
pub enum MediaType {
    Image(ImageType),
    Video(VideoType),
}

/// The byte `b`, in lower case if it is an upper case letter.
pub open spec fn lower(b: u8) -> u8 {
    if 0x41 <= b <= 0x5a {
        (b + 0x20) as u8
    } else {
        b
    }
}

/// Whether `a` and `b` are the same but for letter case.
pub open spec fn same_ignoring_case(a: Seq<u8>, b: Seq<u8>) -> bool {
    a.len() == b.len() && forall|i: int| 0 <= i < a.len() ==> lower(#[trigger] a[i]) == lower(b[i])
}

/// Where the file name starts in `path`: after the last `/`, or at 0.
pub open spec fn name_start(path: Seq<u8>) -> int
    decreases path.len(),
{
    if path.len() == 0 {
        0
    } else if path.last() == 0x2f {
        path.len() as int
    } else {
        name_start(path.drop_last())
    }
}

/// The file name of `path`.
pub open spec fn file_name(path: Seq<u8>) -> Seq<u8> {
    path.subrange(name_start(path), path.len() as int)
}

/// The place of the last `.` in `name`, or -1 if it holds none.
pub open spec fn last_dot(name: Seq<u8>) -> int
    decreases name.len(),
{
    if name.len() == 0 {
        -1
    } else if name.last() == 0x2e {
        name.len() - 1
    } else {
        last_dot(name.drop_last())
    }
}

/// The extension of `path`, if its file name has one.
pub open spec fn extension(path: Seq<u8>) -> Option<Seq<u8>> {
    let name = file_name(path);
    if last_dot(name) >= 1 {
        Some(name.subrange(last_dot(name) + 1, name.len() as int))
    } else {
        None
    }
}

/// The bytes of `jpeg`.
pub open spec fn ext_jpeg() -> Seq<u8> {
    seq![0x6a, 0x70, 0x65, 0x67]
}

/// The bytes of `jpg`.
pub open spec fn ext_jpg() -> Seq<u8> {
    seq![0x6a, 0x70, 0x67]
}

/// The bytes of `heic`.
pub open spec fn ext_heic() -> Seq<u8> {
    seq![0x68, 0x65, 0x69, 0x63]
}

/// The bytes of `mp4`.
pub open spec fn ext_mp4() -> Seq<u8> {
    seq![0x6d, 0x70, 0x34]
}

/// The bytes of `mov`.
pub open spec fn ext_mov() -> Seq<u8> {
    seq![0x6d, 0x6f, 0x76]
}

/// The image type that the extension `ext` names.
pub open spec fn image_type_of(ext: Seq<u8>) -> Option<ImageType> {
    if same_ignoring_case(ext, ext_jpeg()) || same_ignoring_case(ext, ext_jpg()) {
        Some(ImageType::Jpeg)
    } else if same_ignoring_case(ext, ext_heic()) {
        Some(ImageType::Heic)
    } else {
        None
    }
}

/// The video type that the extension `ext` names.
pub open spec fn video_type_of(ext: Seq<u8>) -> Option<VideoType> {
    if same_ignoring_case(ext, ext_mp4()) {
        Some(VideoType::Mp4)
    } else if same_ignoring_case(ext, ext_mov()) {
        Some(VideoType::Mov)
    } else {
        None
    }
}

/// The media type of the file at `path`.
pub open spec fn media_type_of(path: Seq<u8>) -> Option<MediaType> {
    match extension(path) {
        None => None,
        Some(ext) => match image_type_of(ext) {
            Some(t) => Some(MediaType::Image(t)),
            None => match video_type_of(ext) {
                Some(t) => Some(MediaType::Video(t)),
                None => None,
            },
        },
    }
}

fn to_lower(b: u8) -> (r: u8)
    ensures
        r == lower(b),
{
    if 0x41 <= b && b <= 0x5a {
        b + 0x20
    } else {
        b
    }
}

/// Whether `a` and `b` are the same but for letter case.
pub fn eq_ignore_case(a: &[u8], b: &[u8]) -> (r: bool)
    ensures
        r == same_ignoring_case(a@, b@),
{
    if a.len() != b.len() {
        return false;
    }
    let n = a.len();
    let mut i: usize = 0;
    while i < n
        invariant
            i <= n,
            n == a@.len(),
            n == b@.len(),
            forall|j: int| 0 <= j < i ==> lower(#[trigger] a@[j]) == lower(b@[j]),
        decreases n - i,
    {
        if to_lower(a[i]) != to_lower(b[i]) {
            return false;
        }
        i += 1;
    }
    true
}

/// Where the file name of `path` starts.
pub fn file_name_start(path: &[u8]) -> (start: usize)
    ensures
        start == name_start(path@),
        start <= path@.len(),
{
    let mut i: usize = path.len();
    assert(path@.take(i as int) =~= path@);
    while i > 0
        invariant
            i <= path@.len(),
            name_start(path@) == name_start(path@.take(i as int)),
        decreases i,
    {
        proof {
            let head = path@.take(i as int);
            assert(head.last() == path@[i - 1]);
            assert(head.drop_last() =~= path@.take(i - 1));
        }
        if path[i - 1] == 0x2f {
            return i;
        }
        i -= 1;
    }
    proof {
        assert(path@.take(0).len() == 0);
    }
    0
}

/// The extension of `path`, if its file name has one.
pub fn extension_of(path: &[u8]) -> (ext: Option<&[u8]>)
    ensures
        match ext {
            Some(e) => extension(path@) == Some(e@),
            None => extension(path@) is None,
        },
{
    let start = file_name_start(path);
    let name = slice_subrange(path, start, path.len());
    let mut i: usize = name.len();
    assert(name@.take(i as int) =~= name@);
    assert(name@ == file_name(path@));
    while i > 0
        invariant
            i <= name@.len(),
            name@ == file_name(path@),
            last_dot(name@) == last_dot(name@.take(i as int)),
        decreases i,
    {
        proof {
            let head = name@.take(i as int);
            assert(head.last() == name@[i - 1]);
            assert(head.drop_last() =~= name@.take(i - 1));
        }
        if name[i - 1] == 0x2e {
            assert(last_dot(name@) == i - 1);
            if i - 1 >= 1 {
                return Some(slice_subrange(name, i, name.len()));
            } else {
                return None;
            }
        }
        i -= 1;
    }
    proof {
        assert(name@.take(0).len() == 0);
    }
    None
}

impl ImageType {
    /// The image type that an extension names.
    pub fn from_ext(ext: &[u8]) -> (r: Option<ImageType>)
        ensures
            r == image_type_of(ext@),
    {
        let jpeg: [u8; 4] = [0x6a, 0x70, 0x65, 0x67];
        let jpg: [u8; 3] = [0x6a, 0x70, 0x67];
        let heic: [u8; 4] = [0x68, 0x65, 0x69, 0x63];
        assert(jpeg@ =~= ext_jpeg());
        assert(jpg@ =~= ext_jpg());
        assert(heic@ =~= ext_heic());
        if eq_ignore_case(ext, jpeg.as_slice()) || eq_ignore_case(ext, jpg.as_slice()) {
            return Some(ImageType::Jpeg);
        }
        if eq_ignore_case(ext, heic.as_slice()) {
            return Some(ImageType::Heic);
        }
        None
    }
}

impl VideoType {
    /// The video type that an extension names.
    pub fn from_ext(ext: &[u8]) -> (r: Option<VideoType>)
        ensures
            r == video_type_of(ext@),
    {
        let mp4: [u8; 3] = [0x6d, 0x70, 0x34];
        let mov: [u8; 3] = [0x6d, 0x6f, 0x76];
        assert(mp4@ =~= ext_mp4());
        assert(mov@ =~= ext_mov());
        if eq_ignore_case(ext, mp4.as_slice()) {
            return Some(VideoType::Mp4);
        }
        if eq_ignore_case(ext, mov.as_slice()) {
            return Some(VideoType::Mov);
        }
        None
    }
}

impl MediaType {
    /// The media type of the file at `path`, told from its extension.
    pub fn from_path(path: &str) -> (r: Option<MediaType>)
        ensures
            r == media_type_of(path.spec_bytes()),
    {
        match extension_of(path.as_bytes()) {
            None => None,
            Some(ext) => {
                if let Some(image_type) = ImageType::from_ext(ext) {
                    return Some(MediaType::Image(image_type));
                }
                if let Some(video_type) = VideoType::from_ext(ext) {
                    return Some(MediaType::Video(video_type));
                }
                None
            },
        }
    }

    /// Whether this is a video type.
    pub fn is_video(&self) -> (r: bool)
        ensures
            r == (*self is Video),
    {
        match self {
            MediaType::Image(_) => false,
            MediaType::Video(_) => true,
        }
    }
}

} // verus!
