use vstd::prelude::*;
use vstd::string::StrSliceExecFns;
use crate::errors::BlogError;
use crate::markdown::PictureImages;
use crate::markdown::PictureSource;
use crate::markdown::sources_view;
use crate::store::AssetStore;
use crate::store::asset_identifier;
use crate::store::entries_after_register;
use crate::store::has_entry;
use crate::store::has_id;
use crate::store::register_conflicts;
use crate::store::static_path_of;

verus! {

/// Declaration of the codec's decoded-image type; its values are carried
/// through opaquely between decoding and re-encoding.
#[verifier::external_type_specification]
#[verifier::external_body]
pub struct ExDynamicImage(image::DynamicImage);

/// The intrinsic pixel width and height of the image the bytes decode to,
/// if the codec accepts them; what image::load_from_memory yields decides.
pub uninterp spec fn spec_decoded(bytes: Seq<u8>) -> Option<(u32, u32)>;

/// Relies on image::load_from_memory and on DynamicImage's width and
/// height accessors: whether the bytes decode, and the decoded image's
/// intrinsic pixel size, depend on the bytes alone.
#[verifier::external_body]
pub(crate) fn decode_image(bytes: &[u8]) -> (r: Result<(image::DynamicImage, u32, u32), String>)
    ensures
        match r {
            Ok(t) => spec_decoded(bytes@) == Some((t.1, t.2)),
            Err(_) => spec_decoded(bytes@) is None,
        },
{
    match image::load_from_memory(bytes) {
        Ok(img) => {
            let w = img.width();
            let h = img.height();
            Ok((img, w, h))
        },
        Err(e) => Err(format!("{e}")),
    }
}

/// The encodings the transcoder can produce.
#[derive(Debug)]
pub enum ImageEncoding {
    Jpeg,
    Avif,
    WebP,
}

/// Relies on image::DynamicImage::write_to with an in-memory cursor:
/// re-encodes the decoded image in the requested format.
#[verifier::external_body]
pub(crate) fn encode_image(img: &image::DynamicImage, enc: &ImageEncoding) -> (r: Result<
    Vec<u8>,
    String,
>) {
    let format = match enc {
        ImageEncoding::Jpeg => image::ImageFormat::Jpeg,
        ImageEncoding::Avif => image::ImageFormat::Avif,
        ImageEncoding::WebP => image::ImageFormat::WebP,
    };
    let mut bytes: Vec<u8> = Vec::new();
    match img.write_to(&mut std::io::Cursor::new(&mut bytes), format) {
        Ok(()) => Ok(bytes),
        Err(e) => Err(format!("{e}")),
    }
}

/// The position of the last occurrence of a character, if any.
pub open spec fn spec_rfind(s: Seq<char>, c: char) -> Option<int>
    decreases s.len(),
{
    if s.len() == 0 {
        None
    } else if s[s.len() - 1] == c {
        Some(s.len() - 1)
    } else {
        spec_rfind(s.take(s.len() - 1), c)
    }
}

/// The part of a path after its last slash.
pub open spec fn spec_file_name(path: Seq<char>) -> Seq<char> {
    match spec_rfind(path, '/') {
        Some(i) => path.skip(i + 1),
        None => path,
    }
}

/// The base name of a path: its file name with the extension after the
/// last dot stripped, unless that dot leads the name; nothing when the
/// file name is empty or is one of the dot components `.` and `..`.
pub open spec fn spec_file_stem(path: Seq<char>) -> Option<Seq<char>> {
    let name = spec_file_name(path);
    if name.len() == 0 || name == seq!['.'] || name == seq!['.', '.'] {
        None
    } else {
        match spec_rfind(name, '.') {
            Some(i) => if i > 0 {
                Some(name.take(i))
            } else {
                Some(name)
            },
            None => Some(name),
        }
    }
}

fn rfind_char(s: &str, c: char) -> (r: Option<usize>)
    ensures
        match r {
            Some(i) => spec_rfind(s@, c) == Some(i as int) && i < s@.len(),
            None => spec_rfind(s@, c) is None,
        },
{
    let n = s.unicode_len();
    let mut i: usize = n;
    proof {
        assert(s@.take(n as int) =~= s@);
    }
    while i > 0
        invariant
            n == s@.len(),
            i <= n,
            spec_rfind(s@, c) == spec_rfind(s@.take(i as int), c),
        decreases i,
    {
        let ch = s.get_char(i - 1);
        proof {
            assert(s@.take(i as int)[i - 1] == s@[i - 1]);
        }
        if ch == c {
            proof {
                assert(spec_rfind(s@.take(i as int), c) == Some(i - 1));
            }
            return Some(i - 1);
        }
        proof {
            assert(s@.take(i as int).take(i - 1) =~= s@.take(i - 1));
        }
        i -= 1;
    }
    proof {
        assert(s@.take(0).len() == 0);
    }
    None
}

/// Derives the base name an asset is registered under from the image's
/// source path.
pub fn file_stem_of(path: &str) -> (r: Option<String>)
    ensures
        match r {
            Some(s) => spec_file_stem(path@) == Some(s@),
            None => spec_file_stem(path@) is None,
        },
{
    let n = path.unicode_len();
    let name: &str = match rfind_char(path, '/') {
        Some(i) => {
            let nm = path.substring_char(i + 1, n);
            proof {
                assert(nm@ =~= path@.skip(i as int + 1));
            }
            nm
        },
        None => path,
    };
    proof {
        assert(name@ == spec_file_name(path@));
    }
    let m = name.unicode_len();
    if m == 0 {
        return None;
    }
    if m == 1 && name.get_char(0) == '.' {
        proof {
            assert(name@ =~= seq!['.']);
        }
        return None;
    }
    if m == 2 && name.get_char(0) == '.' && name.get_char(1) == '.' {
        proof {
            assert(name@ =~= seq!['.', '.']);
        }
        return None;
    }
    proof {
        assert(name@ != seq!['.'] && name@ != seq!['.', '.']) by {
            if name@ == seq!['.'] {
                assert(name@.len() == 1 && name@[0] == '.');
            }
            if name@ == seq!['.', '.'] {
                assert(name@.len() == 2 && name@[0] == '.' && name@[1] == '.');
            }
        }
    }
    match rfind_char(name, '.') {
        Some(i) => {
            if i > 0 {
                let stem = name.substring_char(0, i).to_owned();
                proof {
                    assert(stem@ =~= spec_file_name(path@).take(i as int));
                }
                Some(stem)
            } else {
                Some(name.to_owned())
            }
        },
        None => Some(name.to_owned()),
    }
}

pub open spec fn jpg_ext() -> Seq<char> {
    seq!['.', 'j', 'p', 'g']
}

pub open spec fn avif_ext() -> Seq<char> {
    seq!['.', 'a', 'v', 'i', 'f']
}

pub open spec fn webp_ext() -> Seq<char> {
    seq!['.', 'w', 'e', 'b', 'p']
}

pub open spec fn avif_media() -> Seq<char> {
    seq!['i', 'm', 'a', 'g', 'e', '/', 'a', 'v', 'i', 'f']
}

pub open spec fn webp_media() -> Seq<char> {
    seq!['i', 'm', 'a', 'g', 'e', '/', 'w', 'e', 'b', 'p']
}

/// A stored entry survives any further registration.
proof fn lemma_entry_kept(
    es: Seq<(Seq<char>, Seq<u8>)>,
    name: Seq<char>,
    ext: Seq<char>,
    bytes: Seq<u8>,
    id: Seq<char>,
    b: Seq<u8>,
)
    requires
        has_entry(es, id, b),
    ensures
        has_entry(entries_after_register(es, name, ext, bytes), id, b),
{
    let i = choose|i: int| 0 <= i < es.len() && es[i].0 == id && es[i].1 == b;
    let es2 = entries_after_register(es, name, ext, bytes);
    assert(es2[i] == es[i]);
}

/// A conflicting identifier is a present identifier.
proof fn lemma_conflict_has_id(
    es: Seq<(Seq<char>, Seq<u8>)>,
    name: Seq<char>,
    ext: Seq<char>,
    bytes: Seq<u8>,
)
    requires
        register_conflicts(es, name, ext, bytes),
    ensures
        has_id(es, asset_identifier(name, ext, bytes)),
        entries_after_register(es, name, ext, bytes) == es,
{
    let id = asset_identifier(name, ext, bytes);
    let i = choose|i: int| 0 <= i < es.len() && es[i].0 == id && es[i].1 != bytes;
    assert(es[i].0 == id);
}

/// Registers the encoded renditions of one image and builds its picture
/// descriptor: the baseline fallback always, the modern pair only when it
/// is handed in, ordered most-preferred first. It succeeds exactly when no
/// rendition hits an identifier already bound to different bytes, and a
/// failure keeps every registration made before it.
pub fn register_picture(
    store: &mut AssetStore,
    name: &str,
    jpeg: Vec<u8>,
    modern: Option<(Vec<u8>, Vec<u8>)>,
    width: u32,
    height: u32,
) -> (r: Result<PictureImages, BlogError>)
    requires
        old(store).wf(),
    ensures
        final(store).wf(),
        ({
            let es0 = old(store).entries();
            let es1 = entries_after_register(es0, name@, jpg_ext(), jpeg@);
            let jpg_id = asset_identifier(name@, jpg_ext(), jpeg@);
            let jpg_clash = register_conflicts(es0, name@, jpg_ext(), jpeg@);
            match modern {
                None => {
                    &&& final(store).entries() == es1
                    &&& (r is Ok <==> !jpg_clash)
                    &&& match r {
                        Ok(pi) => {
                            &&& pi.fallback_path@ == static_path_of(jpg_id)
                            &&& pi.width == width
                            &&& pi.height == height
                            &&& pi.sources@.len() == 0
                            &&& has_entry(es1, jpg_id, jpeg@)
                        },
                        Err(e) => e matches BlogError::HashCollision(_),
                    }
                },
                Some(m) => {
                    let es2 = entries_after_register(es1, name@, avif_ext(), m.0@);
                    let es3 = entries_after_register(es2, name@, webp_ext(), m.1@);
                    let avif_id = asset_identifier(name@, avif_ext(), m.0@);
                    let webp_id = asset_identifier(name@, webp_ext(), m.1@);
                    let avif_clash = register_conflicts(es1, name@, avif_ext(), m.0@);
                    let webp_clash = register_conflicts(es2, name@, webp_ext(), m.1@);
                    &&& (r is Ok <==> !jpg_clash && !avif_clash && !webp_clash)
                    &&& match r {
                        Ok(pi) => {
                            &&& final(store).entries() == es3
                            &&& pi.fallback_path@ == static_path_of(jpg_id)
                            &&& pi.width == width
                            &&& pi.height == height
                            &&& sources_view(pi.sources@) =~= seq![
                                (static_path_of(avif_id), avif_media()),
                                (static_path_of(webp_id), webp_media()),
                            ]
                            &&& has_entry(es3, jpg_id, jpeg@)
                            &&& has_entry(es3, avif_id, m.0@)
                            &&& has_entry(es3, webp_id, m.1@)
                        },
                        Err(e) => {
                            &&& e matches BlogError::HashCollision(_)
                            &&& final(store).entries() == (if jpg_clash {
                                es0
                            } else if avif_clash {
                                es1
                            } else {
                                es2
                            })
                        },
                    }
                },
            }
        }),
{
    proof {
        reveal_strlit(".jpg");
        reveal_strlit(".avif");
        reveal_strlit(".webp");
        reveal_strlit("image/avif");
        reveal_strlit("image/webp");
        assert(".jpg"@ =~= jpg_ext());
        assert(".avif"@ =~= avif_ext());
        assert(".webp"@ =~= webp_ext());
        assert("image/avif"@ =~= avif_media());
        assert("image/webp"@ =~= webp_media());
    }
    let ghost es0 = store.entries();
    let ghost gj = jpeg@;
    let fallback_path = match store.register(name, ".jpg", jpeg) {
        Ok(p) => p,
        Err(e) => {
            proof {
                lemma_conflict_has_id(es0, name@, jpg_ext(), gj);
            }
            return Err(e);
        },
    };
    let ghost es1 = store.entries();
    let ghost jpg_id = asset_identifier(name@, jpg_ext(), gj);
    let sources: Vec<PictureSource> = match modern {
        Some((avif_bytes, webp_bytes)) => {
            let ghost ga = avif_bytes@;
            let avif_path = match store.register(name, ".avif", avif_bytes) {
                Ok(p) => p,
                Err(e) => {
                    proof {
                        lemma_conflict_has_id(es1, name@, avif_ext(), ga);
                    }
                    return Err(e);
                },
            };
            let ghost es2 = store.entries();
            proof {
                lemma_entry_kept(es1, name@, avif_ext(), ga, jpg_id, gj);
            }
            let ghost gw = webp_bytes@;
            let webp_path = match store.register(name, ".webp", webp_bytes) {
                Ok(p) => p,
                Err(e) => {
                    proof {
                        lemma_conflict_has_id(es2, name@, webp_ext(), gw);
                    }
                    return Err(e);
                },
            };
            proof {
                lemma_entry_kept(es2, name@, webp_ext(), gw, jpg_id, gj);
                lemma_entry_kept(
                    es2,
                    name@,
                    webp_ext(),
                    gw,
                    asset_identifier(name@, avif_ext(), ga),
                    ga,
                );
            }
            let mut v: Vec<PictureSource> = Vec::new();
            v.push(PictureSource { path: avif_path, media_type: "image/avif".to_owned() });
            v.push(PictureSource { path: webp_path, media_type: "image/webp".to_owned() });
            v
        },
        None => Vec::new(),
    };
    Ok(PictureImages { sources, fallback_path, height, width })
}

} // verus!
