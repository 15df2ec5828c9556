//! File-type classification and path handling for the upload pipeline and
//! the reconciliation job: the closed set of known file types, inference
//! from a MIME type or a file-name extension, object-store key layout, and
//! the storage-provider and environment enumerations.

use vstd::prelude::*;

use crate::text::{ascii_lower, lower_seq, str_eq, string_from_chars, chars_vec};

verus! {

/// The file types the service knows, by extension; anything else keeps its
/// lowercased source label.
#[derive(Debug, Clone, PartialEq, Eq)]
pub enum FileTypes {
    Png,
    Jpg,
    Jpeg,
    Webp,
    Gif,
    Svg,
    Pdf,
    Doc,
    Docx,
    Txt,
    Xls,
    Xlsx,
    Mp3,
    Wav,
    Ogg,
    Mp4,
    Mov,
    Avi,
    Webm,
    Zip,
    Rar,
    Json,
    Csv,
    Other(String),
}

/// The mathematical shape of a file type.
pub enum FileTypeModel {
    Png,
    Jpg,
    Jpeg,
    Webp,
    Gif,
    Svg,
    Pdf,
    Doc,
    Docx,
    Txt,
    Xls,
    Xlsx,
    Mp3,
    Wav,
    Ogg,
    Mp4,
    Mov,
    Avi,
    Webm,
    Zip,
    Rar,
    Json,
    Csv,
    Other(Seq<char>),
}

impl View for FileTypes {
    type V = FileTypeModel;

    open spec fn view(&self) -> FileTypeModel {
        match self {
            FileTypes::Png => FileTypeModel::Png,
            FileTypes::Jpg => FileTypeModel::Jpg,
            FileTypes::Jpeg => FileTypeModel::Jpeg,
            FileTypes::Webp => FileTypeModel::Webp,
            FileTypes::Gif => FileTypeModel::Gif,
            FileTypes::Svg => FileTypeModel::Svg,
            FileTypes::Pdf => FileTypeModel::Pdf,
            FileTypes::Doc => FileTypeModel::Doc,
            FileTypes::Docx => FileTypeModel::Docx,
            FileTypes::Txt => FileTypeModel::Txt,
            FileTypes::Xls => FileTypeModel::Xls,
            FileTypes::Xlsx => FileTypeModel::Xlsx,
            FileTypes::Mp3 => FileTypeModel::Mp3,
            FileTypes::Wav => FileTypeModel::Wav,
            FileTypes::Ogg => FileTypeModel::Ogg,
            FileTypes::Mp4 => FileTypeModel::Mp4,
            FileTypes::Mov => FileTypeModel::Mov,
            FileTypes::Avi => FileTypeModel::Avi,
            FileTypes::Webm => FileTypeModel::Webm,
            FileTypes::Zip => FileTypeModel::Zip,
            FileTypes::Rar => FileTypeModel::Rar,
            FileTypes::Json => FileTypeModel::Json,
            FileTypes::Csv => FileTypeModel::Csv,
            FileTypes::Other(s) => FileTypeModel::Other(s@),
        }
    }
}

/// The type a lowercased extension or MIME label denotes; an unknown label
/// is kept as-is.
pub open spec fn file_type_of(s: Seq<char>) -> FileTypeModel {
    let t = lower_seq(s);
    if t == "png"@ || t == "image/png"@ {
        FileTypeModel::Png
    } else if t == "jpg"@ || t == "image/jpg"@ {
        FileTypeModel::Jpg
    } else if t == "jpeg"@ || t == "image/jpeg"@ {
        FileTypeModel::Jpeg
    } else if t == "webp"@ || t == "image/webp"@ {
        FileTypeModel::Webp
    } else if t == "gif"@ || t == "image/gif"@ {
        FileTypeModel::Gif
    } else if t == "svg"@ || t == "image/svg+xml"@ {
        FileTypeModel::Svg
    } else if t == "pdf"@ || t == "application/pdf"@ {
        FileTypeModel::Pdf
    } else if t == "doc"@ || t == "application/msword"@ {
        FileTypeModel::Doc
    } else if t == "docx"@ || t == "application/vnd.openxmlformats-officedocument.wordprocessingml.document"@ {
        FileTypeModel::Docx
    } else if t == "txt"@ || t == "text/plain"@ {
        FileTypeModel::Txt
    } else if t == "xls"@ || t == "application/vnd.ms-excel"@ {
        FileTypeModel::Xls
    } else if t == "xlsx"@ || t == "application/vnd.openxmlformats-officedocument.spreadsheetml.sheet"@ {
        FileTypeModel::Xlsx
    } else if t == "mp3"@ || t == "audio/mpeg"@ {
        FileTypeModel::Mp3
    } else if t == "wav"@ || t == "audio/wav"@ {
        FileTypeModel::Wav
    } else if t == "ogg"@ || t == "audio/ogg"@ {
        FileTypeModel::Ogg
    } else if t == "mp4"@ || t == "video/mp4"@ {
        FileTypeModel::Mp4
    } else if t == "mov"@ || t == "video/quicktime"@ {
        FileTypeModel::Mov
    } else if t == "avi"@ || t == "video/x-msvideo"@ {
        FileTypeModel::Avi
    } else if t == "webm"@ || t == "video/webm"@ {
        FileTypeModel::Webm
    } else if t == "zip"@ || t == "application/zip"@ {
        FileTypeModel::Zip
    } else if t == "rar"@ || t == "application/vnd.rar"@ {
        FileTypeModel::Rar
    } else if t == "json"@ || t == "application/json"@ {
        FileTypeModel::Json
    } else if t == "csv"@ || t == "text/csv"@ {
        FileTypeModel::Csv
    } else {
        FileTypeModel::Other(t)
    }
}

/// The MIME content type served for each file type.
pub open spec fn content_type_of(m: FileTypeModel) -> Seq<char> {
    match m {
        FileTypeModel::Png => "image/png"@,
        FileTypeModel::Jpg => "image/jpeg"@,
        FileTypeModel::Jpeg => "image/jpeg"@,
        FileTypeModel::Webp => "image/webp"@,
        FileTypeModel::Gif => "image/gif"@,
        FileTypeModel::Svg => "image/svg+xml"@,
        FileTypeModel::Pdf => "application/pdf"@,
        FileTypeModel::Doc => "application/msword"@,
        FileTypeModel::Docx => "application/vnd.openxmlformats-officedocument.wordprocessingml.document"@,
        FileTypeModel::Txt => "text/plain"@,
        FileTypeModel::Xls => "application/vnd.ms-excel"@,
        FileTypeModel::Xlsx => "application/vnd.openxmlformats-officedocument.spreadsheetml.sheet"@,
        FileTypeModel::Mp3 => "audio/mpeg"@,
        FileTypeModel::Wav => "audio/wav"@,
        FileTypeModel::Ogg => "audio/ogg"@,
        FileTypeModel::Mp4 => "video/mp4"@,
        FileTypeModel::Mov => "video/quicktime"@,
        FileTypeModel::Avi => "video/x-msvideo"@,
        FileTypeModel::Webm => "video/webm"@,
        FileTypeModel::Zip => "application/zip"@,
        FileTypeModel::Rar => "application/vnd.rar"@,
        FileTypeModel::Json => "application/json"@,
        FileTypeModel::Csv => "text/csv"@,
        FileTypeModel::Other(_) => "application/octet-stream"@,
    }
}

/// The short lowercase label of each file type.
pub open spec fn label_of(m: FileTypeModel) -> Seq<char> {
    match m {
        FileTypeModel::Png => "png"@,
        FileTypeModel::Jpg => "jpg"@,
        FileTypeModel::Jpeg => "jpeg"@,
        FileTypeModel::Webp => "webp"@,
        FileTypeModel::Gif => "gif"@,
        FileTypeModel::Svg => "svg"@,
        FileTypeModel::Pdf => "pdf"@,
        FileTypeModel::Doc => "doc"@,
        FileTypeModel::Docx => "docx"@,
        FileTypeModel::Txt => "txt"@,
        FileTypeModel::Xls => "xls"@,
        FileTypeModel::Xlsx => "xlsx"@,
        FileTypeModel::Mp3 => "mp3"@,
        FileTypeModel::Wav => "wav"@,
        FileTypeModel::Ogg => "ogg"@,
        FileTypeModel::Mp4 => "mp4"@,
        FileTypeModel::Mov => "mov"@,
        FileTypeModel::Avi => "avi"@,
        FileTypeModel::Webm => "webm"@,
        FileTypeModel::Zip => "zip"@,
        FileTypeModel::Rar => "rar"@,
        FileTypeModel::Json => "json"@,
        FileTypeModel::Csv => "csv"@,
        FileTypeModel::Other(_) => "other"@,
    }
}

impl FileTypes {
    /// Classifies an extension or MIME label, case-insensitively.
    pub fn from(s: &str) -> (r: FileTypes)
        ensures
            r@ == file_type_of(s@),
    {
        let low = ascii_lower(s);
        if str_eq(low.as_str(), "png") || str_eq(low.as_str(), "image/png") {
            FileTypes::Png
        } else if str_eq(low.as_str(), "jpg") || str_eq(low.as_str(), "image/jpg") {
            FileTypes::Jpg
        } else if str_eq(low.as_str(), "jpeg") || str_eq(low.as_str(), "image/jpeg") {
            FileTypes::Jpeg
        } else if str_eq(low.as_str(), "webp") || str_eq(low.as_str(), "image/webp") {
            FileTypes::Webp
        } else if str_eq(low.as_str(), "gif") || str_eq(low.as_str(), "image/gif") {
            FileTypes::Gif
        } else if str_eq(low.as_str(), "svg") || str_eq(low.as_str(), "image/svg+xml") {
            FileTypes::Svg
        } else if str_eq(low.as_str(), "pdf") || str_eq(low.as_str(), "application/pdf") {
            FileTypes::Pdf
        } else if str_eq(low.as_str(), "doc") || str_eq(low.as_str(), "application/msword") {
            FileTypes::Doc
        } else if str_eq(low.as_str(), "docx") || str_eq(low.as_str(), "application/vnd.openxmlformats-officedocument.wordprocessingml.document") {
            FileTypes::Docx
        } else if str_eq(low.as_str(), "txt") || str_eq(low.as_str(), "text/plain") {
            FileTypes::Txt
        } else if str_eq(low.as_str(), "xls") || str_eq(low.as_str(), "application/vnd.ms-excel") {
            FileTypes::Xls
        } else if str_eq(low.as_str(), "xlsx") || str_eq(low.as_str(), "application/vnd.openxmlformats-officedocument.spreadsheetml.sheet") {
            FileTypes::Xlsx
        } else if str_eq(low.as_str(), "mp3") || str_eq(low.as_str(), "audio/mpeg") {
            FileTypes::Mp3
        } else if str_eq(low.as_str(), "wav") || str_eq(low.as_str(), "audio/wav") {
            FileTypes::Wav
        } else if str_eq(low.as_str(), "ogg") || str_eq(low.as_str(), "audio/ogg") {
            FileTypes::Ogg
        } else if str_eq(low.as_str(), "mp4") || str_eq(low.as_str(), "video/mp4") {
            FileTypes::Mp4
        } else if str_eq(low.as_str(), "mov") || str_eq(low.as_str(), "video/quicktime") {
            FileTypes::Mov
        } else if str_eq(low.as_str(), "avi") || str_eq(low.as_str(), "video/x-msvideo") {
            FileTypes::Avi
        } else if str_eq(low.as_str(), "webm") || str_eq(low.as_str(), "video/webm") {
            FileTypes::Webm
        } else if str_eq(low.as_str(), "zip") || str_eq(low.as_str(), "application/zip") {
            FileTypes::Zip
        } else if str_eq(low.as_str(), "rar") || str_eq(low.as_str(), "application/vnd.rar") {
            FileTypes::Rar
        } else if str_eq(low.as_str(), "json") || str_eq(low.as_str(), "application/json") {
            FileTypes::Json
        } else if str_eq(low.as_str(), "csv") || str_eq(low.as_str(), "text/csv") {
            FileTypes::Csv
        } else {
            FileTypes::Other(low)
        }
    }

    /// The MIME content type to serve for this file type.
    pub fn content_type(&self) -> (r: &'static str)
        ensures
            r@ == content_type_of(self@),
    {
        match self {
            FileTypes::Png => "image/png",
            FileTypes::Jpg => "image/jpeg",
            FileTypes::Jpeg => "image/jpeg",
            FileTypes::Webp => "image/webp",
            FileTypes::Gif => "image/gif",
            FileTypes::Svg => "image/svg+xml",
            FileTypes::Pdf => "application/pdf",
            FileTypes::Doc => "application/msword",
            FileTypes::Docx => "application/vnd.openxmlformats-officedocument.wordprocessingml.document",
            FileTypes::Txt => "text/plain",
            FileTypes::Xls => "application/vnd.ms-excel",
            FileTypes::Xlsx => "application/vnd.openxmlformats-officedocument.spreadsheetml.sheet",
            FileTypes::Mp3 => "audio/mpeg",
            FileTypes::Wav => "audio/wav",
            FileTypes::Ogg => "audio/ogg",
            FileTypes::Mp4 => "video/mp4",
            FileTypes::Mov => "video/quicktime",
            FileTypes::Avi => "video/x-msvideo",
            FileTypes::Webm => "video/webm",
            FileTypes::Zip => "application/zip",
            FileTypes::Rar => "application/vnd.rar",
            FileTypes::Json => "application/json",
            FileTypes::Csv => "text/csv",
            FileTypes::Other(_) => "application/octet-stream",
        }
    }

    /// The short lowercase label (used as a download extension).
    pub fn label(&self) -> (r: &'static str)
        ensures
            r@ == label_of(self@),
    {
        match self {
            FileTypes::Png => "png",
            FileTypes::Jpg => "jpg",
            FileTypes::Jpeg => "jpeg",
            FileTypes::Webp => "webp",
            FileTypes::Gif => "gif",
            FileTypes::Svg => "svg",
            FileTypes::Pdf => "pdf",
            FileTypes::Doc => "doc",
            FileTypes::Docx => "docx",
            FileTypes::Txt => "txt",
            FileTypes::Xls => "xls",
            FileTypes::Xlsx => "xlsx",
            FileTypes::Mp3 => "mp3",
            FileTypes::Wav => "wav",
            FileTypes::Ogg => "ogg",
            FileTypes::Mp4 => "mp4",
            FileTypes::Mov => "mov",
            FileTypes::Avi => "avi",
            FileTypes::Webm => "webm",
            FileTypes::Zip => "zip",
            FileTypes::Rar => "rar",
            FileTypes::Json => "json",
            FileTypes::Csv => "csv",
            FileTypes::Other(_) => "other",
        }
    }
}

/// `k` is the last position of `c` in `s`.
pub open spec fn last_pos_of(s: Seq<char>, c: char, k: int) -> bool {
    0 <= k < s.len() && s[k] == c && (forall|j: int| k < j < s.len() ==> s[j] != c)
}

/// The last position of a character is unique.
pub proof fn lemma_last_pos_unique(s: Seq<char>, c: char, k1: int, k2: int)
    requires
        last_pos_of(s, c, k1),
        last_pos_of(s, c, k2),
    ensures
        k1 == k2,
{
    if k1 < k2 {
        assert(s[k2] == c);
    } else if k2 < k1 {
        assert(s[k1] == c);
    }
}

/// What stands before and after the last occurrence of `c`, if any.
pub open spec fn rsplit_spec(s: Seq<char>, c: char) -> Option<(Seq<char>, Seq<char>)> {
    if exists|k: int| last_pos_of(s, c, k) {
        let k = choose|k: int| last_pos_of(s, c, k);
        Some((s.take(k), s.skip(k + 1)))
    } else {
        None
    }
}

/// Splits at the last occurrence of `c`: the parts before and after it.
pub fn rsplit_once(s: &str, c: char) -> (r: Option<(String, String)>)
    ensures
        match r {
            Some(pair) => rsplit_spec(s@, c) == Some((pair.0@, pair.1@)),
            None => rsplit_spec(s@, c) is None && !s@.contains(c),
        },
{
    let v = chars_vec(s);
    let mut i: usize = v.len();
    while i > 0
        invariant
            i <= v.len(),
            v@ == s@,
            forall|j: int| i <= j < v@.len() ==> s@[j] != c,
        decreases i,
    {
        i = i - 1;
        if v[i] == c {
            let mut a: Vec<char> = Vec::new();
            let mut p: usize = 0;
            while p < i
                invariant
                    p <= i,
                    i < v@.len(),
                    v@ == s@,
                    a@ == s@.take(i as int).take(p as int),
                decreases i - p,
            {
                a.push(v[p]);
                proof {
                    assert(s@.take(i as int).take(p as int + 1) =~= s@.take(i as int).take(
                        p as int,
                    ).push(s@[p as int]));
                }
                p = p + 1;
            }
            let mut b: Vec<char> = Vec::new();
            let mut q: usize = i + 1;
            while q < v.len()
                invariant
                    i < q <= v@.len(),
                    v@ == s@,
                    b@ == s@.skip(i as int + 1).take(q - i - 1),
                decreases v@.len() - q,
            {
                b.push(v[q]);
                proof {
                    assert(s@.skip(i as int + 1).take(q - i) =~= s@.skip(i as int + 1).take(
                        q - i - 1,
                    ).push(s@[q as int]));
                }
                q = q + 1;
            }
            let sa = string_from_chars(&a);
            let sb = string_from_chars(&b);
            proof {
                assert(s@.take(i as int).take(i as int) =~= s@.take(i as int));
                assert(s@.skip(i as int + 1).take(s@.len() - i - 1) =~= s@.skip(i as int + 1));
                assert(last_pos_of(s@, c, i as int));
                let k0 = choose|k: int| last_pos_of(s@, c, k);
                lemma_last_pos_unique(s@, c, k0, i as int);
            }
            return Some((sa, sb));
        }
    }
    proof {
        if exists|k: int| last_pos_of(s@, c, k) {
            let k = choose|k: int| last_pos_of(s@, c, k);
            assert(s@[k] == c);
        }
        if s@.contains(c) {
            let k = choose|k: int| 0 <= k < s@.len() && s@[k] == c;
            assert(s@[k] != c);
        }
    }
    None
}

/// The file-name extension: what follows the last dot, if any.
pub open spec fn ext_of(title: Seq<char>) -> Option<Seq<char>> {
    match rsplit_spec(title, '.') {
        Some(pair) => Some(pair.1),
        None => None,
    }
}

/// The file type inferred for an object: its declared MIME type when
/// present, else its title's extension, else the generic other category.
pub open spec fn infer_type_spec(mime: Option<Seq<char>>, title: Seq<char>) -> FileTypeModel {
    match mime {
        Some(m) => file_type_of(m),
        None => match ext_of(title) {
            Some(e) => file_type_of(e),
            None => FileTypeModel::Other(Seq::empty()),
        },
    }
}

/// Infers the file type from the declared MIME type, the title's
/// extension, or the generic fallback, in that order.
pub fn infer_file_type(mime: Option<&str>, title: &str) -> (r: FileTypes)
    ensures
        r@ == infer_type_spec(
            match mime {
                Some(m) => Some(m@),
                None => None,
            },
            title@,
        ),
{
    match mime {
        Some(m) => FileTypes::from(m),
        None => {
            match rsplit_once(title, '.') {
                Some(pair) => FileTypes::from(pair.1.as_str()),
                None => FileTypes::Other(String::new()),
            }
        },
    }
}

/// The query parameters of a file operation: the slash-delimited path and
/// the visibility flags.
#[derive(Debug, Clone, PartialEq, Eq)]
pub struct FileQuery {
    pub path: String,
    pub is_public: bool,
    pub is_folder: bool,
}

/// A path as a key prefix: empty stays empty, anything else gains a
/// trailing separator.
pub open spec fn fmt_path(p: Seq<char>) -> Seq<char> {
    if p.len() == 0 {
        Seq::empty()
    } else {
        p + "/"@
    }
}

impl FileQuery {
    /// The path as a key prefix.
    pub fn format_path(&self) -> (r: String)
        ensures
            r@ == fmt_path(self.path@),
    {
        if self.path.as_str().is_empty() {
            String::new()
        } else {
            let mut r = self.path.clone();
            r.append("/");
            r
        }
    }
}

/// The object-store key of a file: its formatted path prefix, then its
/// title.
pub open spec fn object_key_spec(path: Seq<char>, title: Seq<char>) -> Seq<char> {
    fmt_path(path) + title
}

/// Builds the object-store key for a file under a path.
pub fn object_key(q: &FileQuery, title: &str) -> (r: String)
    ensures
        r@ == object_key_spec(q.path@, title@),
{
    let mut r = q.format_path();
    r.append(title);
    r
}

/// Builds the object-store key from a bare path and title.
pub fn file_key(path: &str, title: &str) -> (r: String)
    ensures
        r@ == object_key_spec(path@, title@),
{
    let mut r = String::new();
    if !path.is_empty() {
        r.append(path);
        r.append("/");
    }
    r.append(title);
    proof {
        assert(r@ =~= object_key_spec(path@, title@));
    }
    r
}

/// The content-disposition header value for a download: an attachment
/// named by the title and the type's label.
pub fn content_disposition(title: &str, ftype: &FileTypes) -> (r: String)
    ensures
        r@ == "attachment; filename=\""@ + title@ + "."@ + label_of(ftype@) + "\""@,
{
    let mut r = String::new();
    r.append("attachment; filename=\"");
    r.append(title);
    r.append(".");
    r.append(ftype.label());
    r.append("\"");
    proof {
        assert(r@ =~= "attachment; filename=\""@ + title@ + "."@ + label_of(ftype@) + "\""@);
    }
    r
}

/// The public CDN address of an object on the DigitalOcean provider.
pub fn build_cdn_link(bucket: &str, region: &str, path: Option<&str>, title: &str) -> (r: String)
    ensures
        r@ == "https://"@ + bucket@ + "."@ + region@ + ".cdn.digitaloceanspaces.com/"@ + (
        match path {
            Some(p) => fmt_path(p@),
            None => Seq::<char>::empty(),
        }) + title@,
{
    let mut r = String::new();
    r.append("https://");
    r.append(bucket);
    r.append(".");
    r.append(region);
    r.append(".cdn.digitaloceanspaces.com/");
    match path {
        Some(p) => {
            if !p.is_empty() {
                r.append(p);
                r.append("/");
            }
        },
        None => {},
    }
    r.append(title);
    proof {
        assert(r@ =~= "https://"@ + bucket@ + "."@ + region@ + ".cdn.digitaloceanspaces.com/"@ + (
        match path {
            Some(p) => fmt_path(p@),
            None => Seq::<char>::empty(),
        }) + title@);
    }
    r
}

/// The object-storage providers the service can sign links for.
#[derive(Debug, Clone, Copy, PartialEq, Eq, Structural)]
pub enum S3Providers {
    AWS,
    DigitalOcean,
}

impl S3Providers {
    /// Parses the provider's exact name.
    pub fn from_str(s: &str) -> (r: Option<S3Providers>)
        ensures
            r == (if s@ == "AWS"@ {
                Some(S3Providers::AWS)
            } else if s@ == "DigitalOcean"@ {
                Some(S3Providers::DigitalOcean)
            } else {
                None::<S3Providers>
            }),
    {
        if str_eq(s, "AWS") {
            Some(S3Providers::AWS)
        } else if str_eq(s, "DigitalOcean") {
            Some(S3Providers::DigitalOcean)
        } else {
            None
        }
    }
}

/// The deployment environments the service distinguishes.
#[derive(Debug, Clone, Copy, PartialEq, Eq, Structural)]
pub enum Environment {
    Unknown,
    Development,
    Production,
}

impl Environment {
    /// Parses the lowercase environment name.
    pub fn from_str(s: &str) -> (r: Option<Environment>)
        ensures
            r == (if s@ == "unknown"@ {
                Some(Environment::Unknown)
            } else if s@ == "development"@ {
                Some(Environment::Development)
            } else if s@ == "production"@ {
                Some(Environment::Production)
            } else {
                None::<Environment>
            }),
    {
        if str_eq(s, "unknown") {
            Some(Environment::Unknown)
        } else if str_eq(s, "development") {
            Some(Environment::Development)
        } else if str_eq(s, "production") {
            Some(Environment::Production)
        } else {
            None
        }
    }
}


} // verus!
