use vstd::prelude::*;
use crate::errors::BlogError;
use crate::errors::ImageError;
use crate::images::ImageEncoding;
use crate::images::avif_media;
use crate::images::decode_image;
use crate::images::encode_image;
use crate::images::file_stem_of;
use crate::images::jpg_ext;
use crate::images::spec_decoded;
use crate::images::register_picture;
use crate::images::spec_file_stem;
use crate::images::webp_media;
use crate::markdown::PictureImages;
use crate::markdown::sources_view;
use crate::store::AssetStore;
use crate::store::asset_identifier;
use crate::store::entries_after_register;
use crate::store::lemma_register_extends;
use crate::store::register_conflicts;
use crate::store::static_path_of;

verus! {

/// The run's configuration: whether to emit modern image formats, and the
/// input and output roots.
pub struct Opts {
    pub optimize: bool,
    pub input: String,
    pub output: String,
}

/// The pipeline's mutable state: the options, the asset store, and the
/// reference path of the registered theme stylesheet.
pub struct Context {
    pub opts: Opts,
    pub static_files: AssetStore,
    pub theme_css_path: String,
}

impl Context {
    pub open spec fn wf(&self) -> bool {
        self.static_files.wf()
    }

    pub fn new(opts: Opts) -> (c: Self)
        ensures
            c.wf(),
            c.static_files.entries() == Seq::<(Seq<char>, Seq<u8>)>::empty(),
            c.theme_css_path@ == Seq::<char>::empty(),
            c.opts == opts,
    {
        Context { opts, static_files: AssetStore::new(), theme_css_path: String::new() }
    }

    /// Registers one static file's bytes under a logical name and
    /// extension and yields its reference path.
    pub fn add_static_file(&mut self, name: &str, ext: &str, content: Vec<u8>) -> (r: Result<
        String,
        BlogError,
    >)
        requires
            old(self).wf(),
        ensures
            final(self).wf(),
            final(self).opts == old(self).opts,
            final(self).theme_css_path == old(self).theme_css_path,
            final(self).static_files.entries() == entries_after_register(
                old(self).static_files.entries(),
                name@,
                ext@,
                content@,
            ),
            ({
                let es = old(self).static_files.entries();
                match r {
                    Ok(path) => !register_conflicts(es, name@, ext@, content@) && path@
                        == static_path_of(asset_identifier(name@, ext@, content@)),
                    Err(e) => register_conflicts(es, name@, ext@, content@) && (e matches
                    BlogError::HashCollision(_)),
                }
            }),
    {
        self.static_files.register(name, ext, content)
    }

    /// Turns one image's source bytes into registered picture assets:
    /// decodes once, always encodes the universally renderable fallback,
    /// and when optimization is on also the modern pair, most preferred
    /// first. The store only grows; a failure before the first
    /// registration leaves the context untouched.
    pub fn add_image(&mut self, path: &str, data: &[u8]) -> (r: Result<PictureImages, BlogError>)
        requires
            old(self).wf(),
        ensures
            final(self).wf(),
            final(self).opts == old(self).opts,
            final(self).theme_css_path == old(self).theme_css_path,
            ({
                let es0 = old(self).static_files.entries();
                let esf = final(self).static_files.entries();
                &&& es0.len() <= esf.len() <= es0.len() + 3
                &&& (!old(self).opts.optimize ==> esf.len() <= es0.len() + 1)
                &&& forall|i: int| 0 <= i < es0.len() ==> esf[i] == es0[i]
            }),
            (r matches Err(e) && e matches BlogError::Image(_)) ==> *final(self) == *old(self),
            spec_decoded(data@) is None ==> (r matches Err(e) && e matches BlogError::Image(ie)
                && ie matches ImageError::Decode(_)),
            (spec_decoded(data@) is Some && spec_file_stem(path@) is None) ==> r == Err::<
                PictureImages,
                _,
            >(BlogError::Image(ImageError::NoName)),
            match r {
                Ok(pi) => {
                    &&& spec_decoded(data@) matches Some(dims) && pi.width == dims.0
                        && pi.height == dims.1
                    &&& spec_file_stem(path@) is Some
                    &&& (old(self).opts.optimize ==> {
                        &&& pi.sources@.len() == 2
                        &&& sources_view(pi.sources@)[0].1 == avif_media()
                        &&& sources_view(pi.sources@)[1].1 == webp_media()
                    })
                    &&& (!old(self).opts.optimize ==> pi.sources@.len() == 0)
                },
                Err(e) => match e {
                    BlogError::Image(ImageError::Decode(_)) => spec_decoded(data@) is None,
                    BlogError::Image(ImageError::NoName) => spec_decoded(data@) is Some
                        && spec_file_stem(path@) is None,
                    BlogError::Image(ImageError::Encode(_)) => spec_decoded(data@) is Some
                        && spec_file_stem(path@) is Some,
                    BlogError::HashCollision(_) => spec_decoded(data@) is Some && spec_file_stem(
                        path@,
                    ) is Some,
                    _ => false,
                },
            },
    {
        let (img, width, height) = match decode_image(data) {
            Ok(t) => t,
            Err(m) => {
                return Err(BlogError::Image(ImageError::Decode(m)));
            },
        };
        let name = match file_stem_of(path) {
            Some(s) => s,
            None => {
                return Err(BlogError::Image(ImageError::NoName));
            },
        };
        let jpeg = match encode_image(&img, &ImageEncoding::Jpeg) {
            Ok(b) => b,
            Err(m) => {
                return Err(BlogError::Image(ImageError::Encode(m)));
            },
        };
        let modern: Option<(Vec<u8>, Vec<u8>)> = if self.opts.optimize {
            let avif = match encode_image(&img, &ImageEncoding::Avif) {
                Ok(b) => b,
                Err(m) => {
                    return Err(BlogError::Image(ImageError::Encode(m)));
                },
            };
            let webp = match encode_image(&img, &ImageEncoding::WebP) {
                Ok(b) => b,
                Err(m) => {
                    return Err(BlogError::Image(ImageError::Encode(m)));
                },
            };
            Some((avif, webp))
        } else {
            None
        };
        let ghost gjpeg = jpeg@;
        let ghost gmodern = modern;
        proof {
            assert(self.opts.optimize ==> gmodern is Some);
            assert(!self.opts.optimize ==> gmodern is None);
        }
        let r = register_picture(
            &mut self.static_files,
            name.as_str(),
            jpeg,
            modern,
            width,
            height,
        );
        proof {
            assert(spec_file_stem(path@) == Some(name@));
            assert(r matches Ok(pi) ==> sources_view(pi.sources@).len() == pi.sources@.len());
            let es0 = old(self).static_files.entries();
            let es1 = entries_after_register(es0, name@, jpg_ext(), gjpeg);
            lemma_register_extends(es0, name@, jpg_ext(), gjpeg);
            match gmodern {
                None => {},
                Some(m) => {
                    let es2 = entries_after_register(
                        es1,
                        name@,
                        crate::images::avif_ext(),
                        m.0@,
                    );
                    lemma_register_extends(es1, name@, crate::images::avif_ext(), m.0@);
                    lemma_register_extends(es2, name@, crate::images::webp_ext(), m.1@);
                },
            }
        }
        r
    }
}

} // verus!
