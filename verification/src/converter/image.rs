//! Image files, as a Markdown image with a description when a describer
//! is given.

use vstd::prelude::*;

use crate::converter::{
    mime_from_image, mime_spec, resolve_image_placeholders, warning, ConversionOptions,
    ConversionResult, ConversionWarning, Converter, ImageDescriber, ImageInfo, NoDescriber,
    PendingImageResolution, WarningCode,
};
use crate::error::ConvertError;
use crate::text::{bytes_slice, chars_of, decimal, decimal_chars, eq_str, push_all, push_str, string_from_chars};

verus! {

broadcast use vstd::string::group_string_axioms;

/// Converts image files to Markdown image references.
pub struct ImageConverter;

/// The file extension of an image MIME type, empty for an unknown one.
pub open spec fn ext_of_mime(m: Seq<char>) -> &'static str {
    if m == "image/png"@ {
        "png"
    } else if m == "image/jpeg"@ {
        "jpg"
    } else if m == "image/gif"@ {
        "gif"
    } else if m == "image/webp"@ {
        "webp"
    } else if m == "image/bmp"@ {
        "bmp"
    } else if m == "image/tiff"@ {
        "tiff"
    } else if m == "image/svg+xml"@ {
        "svg"
    } else if m == "image/heic"@ {
        "heic"
    } else if m == "image/avif"@ {
        "avif"
    } else {
        ""
    }
}

/// The file extension of an image MIME type (see [`ext_of_mime`]).
pub fn ext_from_mime(mime: &str) -> (r: &'static str)
    ensures
        r == ext_of_mime(mime@),
{
    let m = chars_of(mime);
    let s = m.as_slice();
    if eq_str(s, "image/png") {
        "png"
    } else if eq_str(s, "image/jpeg") {
        "jpg"
    } else if eq_str(s, "image/gif") {
        "gif"
    } else if eq_str(s, "image/webp") {
        "webp"
    } else if eq_str(s, "image/bmp") {
        "bmp"
    } else if eq_str(s, "image/tiff") {
        "tiff"
    } else if eq_str(s, "image/svg+xml") {
        "svg"
    } else if eq_str(s, "image/heic") {
        "heic"
    } else if eq_str(s, "image/avif") {
        "avif"
    } else {
        ""
    }
}

/// The file name an image gets: `image.<ext>` for a known type, else
/// `image`.
pub open spec fn image_file_name(data: Seq<u8>) -> Seq<char> {
    let ext = ext_of_mime(mime_spec("image"@, data)@);
    if ext@.len() == 0 {
        "image"@
    } else {
        "image."@ + ext@
    }
}

/// The placeholder of the single image.
pub open spec fn image_placeholder() -> Seq<char> {
    "__img_0__"@
}

/// The warning for an image over the byte budget.
pub open spec fn oversize_message(len: nat, limit: nat) -> Seq<char> {
    "image size ("@ + decimal(len) + " bytes) exceeds limit ("@ + decimal(limit) + ")"@
}

/// What converting `data` as an image without a describer gives: the
/// Markdown image link with empty alt text, or, over the byte budget, no
/// Markdown and a `ResourceLimitReached` warning; the image itself when
/// images are extracted; no title.
pub open spec fn image_converted(
    data: Seq<u8>,
    options: ConversionOptions,
    res: ConversionResult,
) -> bool {
    &&& res.title is None
    &&& res.plain_text@.len() == 0
    &&& if data.len() > options.max_total_image_bytes {
        &&& res.markdown@.len() == 0
        &&& res.images@.len() == 0
        &&& res.warnings@.len() == 1
        &&& res.warnings@[0].code == WarningCode::ResourceLimitReached
        &&& res.warnings@[0].message@ == oversize_message(
            data.len(),
            options.max_total_image_bytes as nat,
        )
    } else {
        &&& res.markdown@ == "![]("@ + image_file_name(data) + ")\n"@
        &&& res.warnings@.len() == 0
        &&& (options.extract_images ==> res.images@.len() == 1 && res.images@[0].0@
            == image_file_name(data) && res.images@[0].1@ == data)
        &&& (!options.extract_images ==> res.images@.len() == 0)
    }
}

impl ImageConverter {
    /// The Markdown image for `data` with a placeholder to resolve, and the
    /// image kept for resolution; an image over the byte budget gives no
    /// Markdown and a `ResourceLimitReached` warning instead.
    pub fn convert_inner(&self, data: &[u8], options: &ConversionOptions) -> (r: (
        ConversionResult,
        PendingImageResolution,
    ))
        ensures
            r.0.title is None,
            r.0.plain_text@.len() == 0,
            data.len() > options.max_total_image_bytes ==> {
                &&& r.0.markdown@.len() == 0
                &&& r.0.images@.len() == 0
                &&& r.0.warnings@.len() == 1
                &&& r.0.warnings@[0].code == WarningCode::ResourceLimitReached
                &&& r.0.warnings@[0].message@ == oversize_message(
                    data.len() as nat,
                    options.max_total_image_bytes as nat,
                )
                &&& r.1.infos@.len() == 0
            },
            data.len() <= options.max_total_image_bytes ==> {
                &&& r.0.markdown@ == "!["@ + image_placeholder() + "]("@ + image_file_name(data@)
                    + ")\n"@
                &&& r.0.warnings@.len() == 0
                &&& r.1.infos@.len() == 1
                &&& r.1.infos@[0].placeholder@ == image_placeholder()
                &&& r.1.infos@[0].original_alt@.len() == 0
                &&& r.1.infos@[0].filename@ == image_file_name(data@)
                &&& r.1.infos@[0].bytes_key@ == image_file_name(data@)
                &&& r.1.bytes@.len() == 1
                &&& r.1.bytes@[0].0@ == image_file_name(data@)
                &&& r.1.bytes@[0].1@ == data@
                &&& (options.extract_images ==> r.0.images@.len() == 1 && r.0.images@[0].0@
                    == image_file_name(data@) && r.0.images@[0].1@ == data@)
                &&& (!options.extract_images ==> r.0.images@.len() == 0)
            },
    {
        let mime = mime_from_image("image", data);
        let ext = ext_from_mime(mime);
        let e = chars_of(ext);
        let mut name: Vec<char> = Vec::new();
        push_str(&mut name, "image");
        if e.len() > 0 {
            name.push('.');
            push_all(&mut name, e.as_slice());
        }
        proof {
            reveal_strlit("image");
            reveal_strlit("image.");
            assert(name@ =~= image_file_name(data@));
        }
        let mut result = ConversionResult::default();
        if data.len() > options.max_total_image_bytes {
            let mut m: Vec<char> = Vec::new();
            push_str(&mut m, "image size (");
            let d = decimal_chars(data.len());
            push_all(&mut m, d.as_slice());
            push_str(&mut m, " bytes) exceeds limit (");
            let l = decimal_chars(options.max_total_image_bytes);
            push_all(&mut m, l.as_slice());
            push_str(&mut m, ")");
            result.warnings.push(
                warning(
                    WarningCode::ResourceLimitReached,
                    m,
                    Some(string_from_chars(name.as_slice())),
                ),
            );
            return (result, PendingImageResolution { infos: Vec::new(), bytes: Vec::new() });
        }
        let mut md: Vec<char> = Vec::new();
        push_str(&mut md, "![");
        push_str(&mut md, "__img_0__");
        push_str(&mut md, "](");
        push_all(&mut md, name.as_slice());
        push_str(&mut md, ")\n");
        result.markdown = string_from_chars(md.as_slice());
        let mut infos: Vec<ImageInfo> = Vec::new();
        infos.push(
            ImageInfo {
                placeholder: string_from_chars(chars_of("__img_0__").as_slice()),
                original_alt: String::new(),
                filename: string_from_chars(name.as_slice()),
                bytes_key: string_from_chars(name.as_slice()),
            },
        );
        let mut bytes: Vec<(String, Vec<u8>)> = Vec::new();
        bytes.push((string_from_chars(name.as_slice()), bytes_slice(data, 0, data.len())));
        if options.extract_images {
            result.images.push((string_from_chars(name.as_slice()), bytes_slice(data, 0, data.len())));
        }
        assert(data@.subrange(0, data.len() as int) =~= data@);
        (result, PendingImageResolution { infos, bytes })
    }

    /// Converts an image, describing it with `describer` when one is given.
    pub fn convert_with_describer<D: ImageDescriber>(
        &self,
        data: &[u8],
        options: &ConversionOptions,
        describer: Option<&D>,
    ) -> (r: Result<ConversionResult, ConvertError>)
        ensures
            r is Ok,
            describer is None && data.len() <= options.max_total_image_bytes ==> (r matches Ok(res)
                && res.markdown@ == "![]("@ + image_file_name(data@) + ")\n"@),
            describer is None ==> (r matches Ok(res) && image_converted(data@, *options, res)),
    {
        let (mut result, pending) = self.convert_inner(data, options);
        let ghost md0 = result.markdown@;
        let ghost p0 = result.plain_text@;
        resolve_image_placeholders(
            &mut result.markdown,
            &mut result.plain_text,
            &pending.infos,
            &pending.bytes,
            describer,
            &mut result.warnings,
        );
        proof {
            if describer is None && data.len() <= options.max_total_image_bytes {
                lemma_single_image_resolved(md0, pending.infos@, image_file_name(data@));
                let iv = crate::converter::imgs_view(pending.infos@);
                assert(iv.drop_last() =~= Seq::<(Seq<char>, Seq<char>, Seq<char>, Seq<char>)>::empty());
                reveal(crate::text::first_occurrence);
                reveal_strlit("__img_0__");
                assert(iv.last().0.len() > 0);
                assert(p0 =~= Seq::<char>::empty());
                assert(crate::converter::resolve_plain_without_describer(p0, iv.drop_last()) == p0);
                assert(crate::text::first_occurrence(p0, iv.last().0) is None);
                assert(crate::converter::resolve_plain_without_describer(p0, iv) == p0);
            }
            if describer is None && data.len() > options.max_total_image_bytes {
                assert(crate::converter::imgs_view(pending.infos@).len() == 0);
            }
        }
        Ok(result)
    }
}

/// Resolving the single placeholder of `![__img_0__](name)\n` without a
/// describer leaves `![](name)\n`.
proof fn lemma_single_image_resolved(md: Seq<char>, infos: Seq<ImageInfo>, name: Seq<char>)
    requires
        md == "!["@ + image_placeholder() + "]("@ + name + ")\n"@,
        infos.len() == 1,
        infos[0].placeholder@ == image_placeholder(),
        infos[0].original_alt@.len() == 0,
        infos[0].filename@ == name,
    ensures
        crate::converter::resolve_without_describer(md, crate::converter::imgs_view(infos))
            == "![]("@ + name + ")\n"@,
{
    reveal_strlit("![");
    reveal_strlit("](");
    reveal_strlit(")\n");
    reveal_strlit("__img_0__");
    reveal_strlit("![](");
    let target = crate::converter::image_md(image_placeholder(), name);
    assert(md =~= target + seq!['\n']);
    assert(crate::text::occurs_at(md, target, 0)) by {
        assert(md.subrange(0, target.len() as int) =~= target);
    }
    crate::text::lemma_first_occurrence(md, target, 0);
    let iv = crate::converter::imgs_view(infos);
    assert(iv.drop_last() =~= Seq::<(Seq<char>, Seq<char>, Seq<char>, Seq<char>)>::empty());
    assert(crate::converter::resolve_without_describer(md, iv.drop_last()) == md);
    assert(iv.last() == crate::converter::img_view(infos[0]));
    assert(crate::converter::image_md(infos[0].original_alt@, name) =~= seq!['!', '[', ']', '(']
        + name + seq![')']);
}

impl Converter for ImageConverter {
    open spec fn extensions(&self) -> Seq<&'static str> {
        seq![
            "png",
            "jpg",
            "jpeg",
            "gif",
            "webp",
            "bmp",
            "tiff",
            "tif",
            "svg",
            "heic",
            "heif",
            "avif",
            "image",
        ]
    }

    fn supported_extensions(&self) -> (r: Vec<&'static str>) {
        let v = vec![
            "png",
            "jpg",
            "jpeg",
            "gif",
            "webp",
            "bmp",
            "tiff",
            "tif",
            "svg",
            "heic",
            "heif",
            "avif",
            "image",
        ];
        assert(v@ =~= self.extensions());
        v
    }

    fn convert(&self, data: &[u8], options: &ConversionOptions) -> (r: Result<
        ConversionResult,
        ConvertError,
    >)
        ensures
            r matches Ok(res) && image_converted(data@, *options, res),
    {
        self.convert_with_describer::<NoDescriber>(data, options, None)
    }
}

} // verus!
