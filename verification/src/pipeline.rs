use vstd::prelude::*;
use vstd::string::StrSliceExecFns;
use crate::context::Context;
use crate::errors::BlogError;
use crate::frontmatter::Frontmatter;
use crate::markdown::PictureImages;
use crate::markdown::PlanItem;
use crate::markdown::assemble_events;
use crate::markdown::build_plan;
use crate::markdown::event_kinds_of;
use crate::markdown::kinds_view;
use crate::markdown::ImageRefV;
use crate::markdown::lemma_plan_keeps_bounded;
use crate::markdown::parse_and_classify;
use crate::markdown::picture_view;
use crate::markdown::plan_view;
use crate::markdown::plans_view;
use crate::markdown::refs_view;
use crate::markdown::resolve_path;
use crate::markdown::scan_images;
use crate::markdown::serialize_events;
use crate::markdown::spec_scan;
use crate::store::str_eq;

verus! {

/// One post, as loaded from its source entry: its slug, the directory its
/// relative image paths resolve against, its frontmatter, and its body
/// markdown.
pub struct Post {
    pub name: String,
    pub relative_to: String,
    pub frontmatter: Frontmatter,
    pub body_md: String,
}

/// The position of the first occurrence of a character, if any.
pub open spec fn spec_find(s: Seq<char>, c: char) -> Option<int>
    decreases s.len(),
{
    if s.len() == 0 {
        None
    } else if s[0] == c {
        Some(0)
    } else {
        match spec_find(s.skip(1), c) {
            Some(i) => Some(i + 1),
            None => None,
        }
    }
}

/// What a post entry's name must be: a directory keeps its name as the
/// slug; a file must be `name.md`, split at its first dot.
pub open spec fn spec_post_name(filename: Seq<char>, is_dir: bool) -> Option<Seq<char>> {
    if is_dir {
        Some(filename)
    } else {
        match spec_find(filename, '.') {
            Some(i) => if filename.skip(i + 1) == seq!['m', 'd'] {
                Some(filename.take(i))
            } else {
                None
            },
            None => None,
        }
    }
}

/// Derives a post's slug from its entry name, rejecting any file whose
/// name is not `name.md`.
pub fn post_name_of(filename: &str, is_dir: bool) -> (r: Result<String, BlogError>)
    ensures
        match r {
            Ok(nm) => spec_post_name(filename@, is_dir) == Some(nm@),
            Err(e) => spec_post_name(filename@, is_dir) is None && (e matches
            BlogError::InvalidPostFilename(_)),
        },
{
    if is_dir {
        return Ok(filename.to_owned());
    }
    let n = filename.unicode_len();
    let ghost s = filename@;
    proof {
        assert(s.skip(0) =~= s);
    }
    let mut i: usize = 0;
    while i < n
        invariant
            !is_dir,
            n == s.len(),
            s == filename@,
            i <= n,
            match spec_find(s.skip(i as int), '.') {
                Some(j) => spec_find(s, '.') == Some(i + j),
                None => spec_find(s, '.') is None,
            },
            forall|j: int| 0 <= j < i ==> s[j] != '.',
        decreases n - i,
    {
        proof {
            assert(s.skip(i as int)[0] == s[i as int]);
            assert(s.skip(i as int).skip(1) =~= s.skip(i as int + 1));
        }
        if filename.get_char(i) == '.' {
            proof {
                assert(spec_find(s.skip(i as int), '.') == Some(0int));
                assert(spec_find(s, '.') == Some(i as int));
            }
            let ext = filename.substring_char(i + 1, n);
            proof {
                assert(ext@ =~= s.skip(i as int + 1));
                reveal_strlit("md");
                assert("md"@ =~= seq!['m', 'd']);
            }
            if str_eq(ext, "md") {
                let stem = filename.substring_char(0, i).to_owned();
                proof {
                    assert(stem@ =~= s.take(i as int));
                }
                return Ok(stem);
            } else {
                return Err(BlogError::InvalidPostFilename(filename.to_owned()));
            }
        }
        i += 1;
    }
    proof {
        assert(s.skip(i as int).len() == 0);
    }
    Err(BlogError::InvalidPostFilename(filename.to_owned()))
}

/// The bytes under the first occurrence of the key, if any.
pub open spec fn spec_lookup_bytes(ps: Seq<(Seq<char>, Seq<u8>)>, key: Seq<char>) -> Option<
    Seq<u8>,
>
    decreases ps.len(),
{
    if ps.len() == 0 {
        None
    } else if ps[0].0 == key {
        Some(ps[0].1)
    } else {
        spec_lookup_bytes(ps.skip(1), key)
    }
}

fn lookup_bytes<'a>(images: &'a Vec<(String, Vec<u8>)>, key: &str) -> (r: Option<&'a Vec<u8>>)
    ensures
        match r {
            Some(v) => spec_lookup_bytes(images.deep_view(), key@) == Some(v@),
            None => spec_lookup_bytes(images.deep_view(), key@) is None,
        },
{
    let ghost dv = images.deep_view();
    proof {
        assert(dv.skip(0) =~= dv);
    }
    let mut i: usize = 0;
    while i < images.len()
        invariant
            dv == images.deep_view(),
            dv.len() == images@.len(),
            i <= dv.len(),
            spec_lookup_bytes(dv, key@) == spec_lookup_bytes(dv.skip(i as int), key@),
        decreases dv.len() - i,
    {
        proof {
            assert(dv[i as int] == (images@[i as int].0@, images@[i as int].1@));
            assert(dv.skip(i as int)[0] == dv[i as int]);
            assert(dv.skip(i as int).skip(1) =~= dv.skip(i as int + 1));
        }
        if str_eq(images[i].0.as_str(), key) {
            return Some(&images[i].1);
        }
        i += 1;
    }
    proof {
        assert(dv.skip(i as int).len() == 0);
    }
    None
}

/// The destination URLs of every image reference in a markdown source, in
/// the order they occur; the scan of the source's classified event stream
/// decides both the URLs and the one structural error.
pub fn image_refs(md: &str) -> (r: Result<Vec<String>, BlogError>)
    ensures
        match spec_scan(event_kinds_of(md@), 0) {
            Err(me) => r == Err::<Vec<String>, _>(BlogError::Markdown(me)),
            Ok(srefs) => r matches Ok(urls) && urls.deep_view() == srefs.map_values(
                |q: ImageRefV| q.dest_url,
            ),
        },
{
    let (_events, kinds) = parse_and_classify(md);
    let refs = match scan_images(&kinds) {
        Ok(rs) => rs,
        Err(e) => {
            return Err(BlogError::Markdown(e));
        },
    };
    let ghost srefs = refs_view(refs@);
    let mut urls: Vec<String> = Vec::new();
    let mut k: usize = 0;
    while k < refs.len()
        invariant
            srefs == refs_view(refs@),
            srefs.len() == refs@.len(),
            k <= refs@.len(),
            urls.deep_view().len() == k,
            forall|j: int| 0 <= j < k ==> urls.deep_view()[j] == srefs[j].dest_url,
        decreases refs@.len() - k,
    {
        proof {
            assert(srefs[k as int] == ImageRefV {
                pos: refs@[k as int].pos as int,
                dest_url: refs@[k as int].dest_url@,
                alt: refs@[k as int].alt@,
            });
        }
        let ghost dv0 = urls.deep_view();
        urls.push(refs[k].dest_url.clone());
        proof {
            assert(urls.deep_view() =~= dv0.push(refs@[k as int].dest_url@));
        }
        k += 1;
    }
    proof {
        assert(urls.deep_view() =~= srefs.map_values(|q: ImageRefV| q.dest_url));
    }
    Ok(urls)
}

/// Renders one post's markdown body to HTML, replacing each image
/// reference by a picture block whose assets are registered in the
/// context's store. The caller hands in the source bytes of every image,
/// keyed by resolved path; relative destinations resolve against
/// `relative_to`.
pub fn render_body(
    ctx: &mut Context,
    relative_to: &str,
    md: &str,
    images: &Vec<(String, Vec<u8>)>,
) -> (r: Result<String, BlogError>)
    requires
        old(ctx).wf(),
    ensures
        final(ctx).wf(),
        final(ctx).opts == old(ctx).opts,
        final(ctx).theme_css_path == old(ctx).theme_css_path,
        ({
            let es0 = old(ctx).static_files.entries();
            let esf = final(ctx).static_files.entries();
            &&& es0.len() <= esf.len()
            &&& forall|i: int| 0 <= i < es0.len() ==> esf[i] == es0[i]
        }),
        match spec_scan(event_kinds_of(md@), 0) {
            Err(me) => r == Err::<String, _>(BlogError::Markdown(me)),
            Ok(srefs) => {
                &&& !(r matches Err(e) && e matches BlogError::Markdown(_))
                &&& final(ctx).static_files.entries().len() <= old(
                    ctx,
                ).static_files.entries().len() + 3 * srefs.len()
                &&& (!old(ctx).opts.optimize ==> final(ctx).static_files.entries().len() <= old(
                    ctx,
                ).static_files.entries().len() + srefs.len())
            },
        },
{
    let (events, kinds) = parse_and_classify(md);
    let refs = match scan_images(&kinds) {
        Ok(rs) => rs,
        Err(e) => {
            return Err(BlogError::Markdown(e));
        },
    };
    let mut pics: Vec<PictureImages> = Vec::new();
    let nrefs = refs.len();
    let mut k: usize = 0;
    while k < nrefs
        invariant
            ctx.wf(),
            ctx.opts == old(ctx).opts,
            ctx.theme_css_path == old(ctx).theme_css_path,
            old(ctx).static_files.entries().len() <= ctx.static_files.entries().len(),
            forall|i: int|
                0 <= i < old(ctx).static_files.entries().len()
                    ==> ctx.static_files.entries()[i] == old(ctx).static_files.entries()[i],
            nrefs == refs@.len(),
            k <= nrefs,
            pics@.len() == k,
            ctx.static_files.entries().len() <= old(ctx).static_files.entries().len() + 3 * k,
            !old(ctx).opts.optimize ==> ctx.static_files.entries().len() <= old(
                ctx,
            ).static_files.entries().len() + k,
            spec_scan(event_kinds_of(md@), 0) == Ok::<
                _,
                crate::errors::MarkdownStructureError,
            >(refs_view(refs@)),
            kinds_view(kinds@) == event_kinds_of(md@),
            kinds@.len() == events@.len(),
        decreases nrefs - k,
    {
        let resolved = resolve_path(relative_to, refs[k].dest_url.as_str());
        let data = match lookup_bytes(images, resolved.as_str()) {
            Some(d) => d,
            None => {
                return Err(BlogError::MissingImageData(resolved));
            },
        };
        let pi = match ctx.add_image(resolved.as_str(), data.as_slice()) {
            Ok(p) => p,
            Err(e) => {
                return Err(e);
            },
        };
        pics.push(pi);
        k += 1;
    }
    proof {
        assert(refs_view(refs@).len() == refs@.len());
    }
    let plan = build_plan(&kinds, &pics);
    proof {
        let pv = pics@.map_values(|p: PictureImages| picture_view(p));
        lemma_plan_keeps_bounded(kinds_view(kinds@), pv, 0, 0);
        assert forall|j: int|
            0 <= j < plan@.len() implies (#[trigger] plan@[j] matches PlanItem::Keep(x) ==> x
            < events@.len()) by {
            assert(plans_view(plan@)[j] == plan_view(plan@[j]));
        }
    }
    let out = assemble_events(&events, plan);
    Ok(serialize_events(out))
}

} // verus!
