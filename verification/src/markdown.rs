use vstd::prelude::*;
use vstd::string::StrSliceExecFns;
use vstd::string::StringExecFns;
use pulldown_cmark::Event;
use pulldown_cmark::Options;
use pulldown_cmark::Parser;
use pulldown_cmark::Tag;
use pulldown_cmark::TagEnd;
use crate::errors::MarkdownStructureError;

verus! {

/// Declaration of the markdown parser's event type; its values are carried
/// through opaquely and pass-through events are never inspected.
#[verifier::external_type_specification]
#[verifier::external_body]
pub struct ExEvent<'a>(pulldown_cmark::Event<'a>);

/// What the rewriter reads off one markdown event; everything else is a
/// pass-through.
#[derive(Debug)]
pub enum MdEventKind {
    ImageStart { dest_url: String },
    Text { content: String },
    ImageEnd,
    Other,
}

/// The ghost shape of a classified event.
pub enum MdEventKindV {
    ImageStart(Seq<char>),
    Text(Seq<char>),
    ImageEnd,
    Other,
}

pub open spec fn kind_view(k: MdEventKind) -> MdEventKindV {
    match k {
        MdEventKind::ImageStart { dest_url } => MdEventKindV::ImageStart(dest_url@),
        MdEventKind::Text { content } => MdEventKindV::Text(content@),
        MdEventKind::ImageEnd => MdEventKindV::ImageEnd,
        MdEventKind::Other => MdEventKindV::Other,
    }
}

pub open spec fn kinds_view(ks: Seq<MdEventKind>) -> Seq<MdEventKindV> {
    ks.map_values(|k: MdEventKind| kind_view(k))
}

/// The classification of the markdown event stream of a source text, as
/// the parser with the tables, footnotes and strikethrough extensions
/// yields it.
pub uninterp spec fn event_kinds_of(md: Seq<char>) -> Seq<MdEventKindV>;

/// Relies on pulldown_cmark::Event::Html: wraps a raw HTML fragment as an
/// event of the stream.
#[verifier::external_body]
fn html_event(s: String) -> (ev: pulldown_cmark::Event<'static>) {
    pulldown_cmark::Event::Html(s.into())
}

/// Relies on pulldown_cmark::Tag::HtmlBlock: the start event of a raw HTML
/// block.
#[verifier::external_body]
fn html_block_start() -> (ev: pulldown_cmark::Event<'static>) {
    pulldown_cmark::Event::Start(pulldown_cmark::Tag::HtmlBlock)
}

/// Relies on pulldown_cmark::TagEnd::HtmlBlock: the end event of a raw HTML
/// block.
#[verifier::external_body]
fn html_block_end() -> (ev: pulldown_cmark::Event<'static>) {
    pulldown_cmark::Event::End(pulldown_cmark::TagEnd::HtmlBlock)
}

/// Relies on pulldown_cmark::Event's derived Clone impl producing a value
/// equal to the original.
#[verifier::external_body]
fn clone_event(ev: &pulldown_cmark::Event<'static>) -> (r: pulldown_cmark::Event<'static>)
    ensures
        r == *ev,
{
    ev.clone()
}

/// Relies on pulldown_cmark::html::push_html: serializes the event stream
/// to its standard HTML rendering.
#[verifier::external_body]
fn events_to_html(events: Vec<pulldown_cmark::Event<'static>>) -> (r: String) {
    let mut out = String::new();
    pulldown_cmark::html::push_html(&mut out, events.into_iter());
    out
}

/// Relies on pulldown_cmark::Parser::new_ext with the tables, footnotes
/// and strikethrough extensions: the event stream depends on the source
/// text alone; each event is classified variant for variant, fields moved.
#[verifier::external_body]
pub(crate) fn parse_and_classify(md: &str) -> (r: (Vec<pulldown_cmark::Event<'static>>, Vec<MdEventKind>))
    ensures
        kinds_view(r.1@) == event_kinds_of(md@),
        r.0@.len() == r.1@.len(),
{
    let mut opts = Options::empty();
    opts.insert(Options::ENABLE_TABLES | Options::ENABLE_FOOTNOTES | Options::ENABLE_STRIKETHROUGH);
    let events: Vec<Event<'static>> = Parser::new_ext(md, opts).map(Event::into_static).collect();
    let kinds = events.iter().map(|ev| match ev {
        Event::Start(Tag::Image { dest_url, .. }) => MdEventKind::ImageStart { dest_url: dest_url.to_string() },
        Event::Text(t) => MdEventKind::Text { content: t.to_string() },
        Event::End(TagEnd::Image) => MdEventKind::ImageEnd,
        _ => MdEventKind::Other,
    }).collect();
    (events, kinds)
}

/// One image reference found in the stream: the position of its start
/// event, its destination URL, and its literal alternative text.
pub struct ImageRef {
    pub pos: usize,
    pub dest_url: String,
    pub alt: String,
}

/// The ghost shape of an image reference.
pub struct ImageRefV {
    pub pos: int,
    pub dest_url: Seq<char>,
    pub alt: Seq<char>,
}

/// Scanning the classified stream from position `i`: an image-start event
/// must be followed immediately by its alternative text and its end tag;
/// any other sequence there is a structural failure.
pub open spec fn spec_scan(ks: Seq<MdEventKindV>, i: int) -> Result<
    Seq<ImageRefV>,
    MarkdownStructureError,
>
    decreases ks.len() - i,
{
    if i < 0 || i >= ks.len() {
        Ok(Seq::empty())
    } else {
        match ks[i] {
            MdEventKindV::ImageStart(dest_url) => {
                if i + 1 >= ks.len() {
                    Err(MarkdownStructureError::NoAltText)
                } else {
                    match ks[i + 1] {
                        MdEventKindV::Text(content) => {
                            if i + 2 >= ks.len() || !(ks[i + 2] is ImageEnd) {
                                Err(MarkdownStructureError::NoImageEnd)
                            } else {
                                match spec_scan(ks, i + 3) {
                                    Ok(rest) => Ok(
                                        seq![ImageRefV { pos: i, dest_url, alt: content }]
                                            + rest,
                                    ),
                                    Err(e) => Err(e),
                                }
                            }
                        },
                        _ => Err(MarkdownStructureError::NoAltText),
                    }
                }
            },
            _ => spec_scan(ks, i + 1),
        }
    }
}

pub open spec fn refs_view(rs: Seq<ImageRef>) -> Seq<ImageRefV> {
    rs.map_values(
        |r: ImageRef| ImageRefV { pos: r.pos as int, dest_url: r.dest_url@, alt: r.alt@ },
    )
}

/// Walks the classified stream and collects every image reference,
/// validating the image grammar: any event other than text-and-end-tag
/// immediately after an image start is rejected.
pub fn scan_images(kinds: &Vec<MdEventKind>) -> (r: Result<Vec<ImageRef>, MarkdownStructureError>)
    ensures
        match r {
            Ok(refs) => spec_scan(kinds_view(kinds@), 0) == Ok::<_, MarkdownStructureError>(
                refs_view(refs@),
            ),
            Err(e) => spec_scan(kinds_view(kinds@), 0) == Err::<Seq<ImageRefV>, _>(e),
        },
{
    let ghost ks = kinds_view(kinds@);
    let mut refs: Vec<ImageRef> = Vec::new();
    let mut i: usize = 0;
    while i < kinds.len()
        invariant
            ks == kinds_view(kinds@),
            ks.len() == kinds@.len(),
            i <= ks.len(),
            forall|rest: Seq<ImageRefV>|
                spec_scan(ks, i as int) == Ok::<_, MarkdownStructureError>(rest) ==> spec_scan(
                    ks,
                    0,
                ) == Ok::<_, MarkdownStructureError>(refs_view(refs@) + rest),
            forall|e: MarkdownStructureError|
                spec_scan(ks, i as int) == Err::<Seq<ImageRefV>, _>(e) ==> spec_scan(ks, 0)
                    == Err::<Seq<ImageRefV>, _>(e),
        decreases ks.len() - i,
    {
        let ghost refs0 = refs_view(refs@);
        proof {
            assert(ks[i as int] == kind_view(kinds@[i as int]));
        }
        match &kinds[i] {
            MdEventKind::ImageStart { dest_url } => {
                proof {
                    assert(ks[i as int] == MdEventKindV::ImageStart(dest_url@));
                }
                if i + 1 >= kinds.len() {
                    proof {
                        assert(spec_scan(ks, i as int) == Err::<Seq<ImageRefV>, _>(
                            MarkdownStructureError::NoAltText,
                        ));
                    }
                    return Err(MarkdownStructureError::NoAltText);
                }
                proof {
                    assert(ks[i as int + 1] == kind_view(kinds@[i as int + 1]));
                }
                match &kinds[i + 1] {
                    MdEventKind::Text { content } => {
                        proof {
                            assert(ks[i as int + 1] == MdEventKindV::Text(content@));
                        }
                        let end_ok = i + 2 < kinds.len() && match &kinds[i + 2] {
                            MdEventKind::ImageEnd => true,
                            _ => false,
                        };
                        proof {
                            if i + 2 < kinds@.len() {
                                assert(ks[i as int + 2] == kind_view(kinds@[i as int + 2]));
                            }
                            assert(end_ok == (i + 2 < ks.len() && ks[i as int + 2] is ImageEnd));
                        }
                        if !end_ok {
                            proof {
                                assert(spec_scan(ks, i as int) == Err::<Seq<ImageRefV>, _>(
                                    MarkdownStructureError::NoImageEnd,
                                ));
                            }
                            return Err(MarkdownStructureError::NoImageEnd);
                        }
                        refs.push(
                            ImageRef {
                                pos: i,
                                dest_url: dest_url.clone(),
                                alt: content.clone(),
                            },
                        );
                        proof {
                            assert(refs_view(refs@) =~= refs0 + seq![
                                ImageRefV {
                                    pos: i as int,
                                    dest_url: ks[i as int]->ImageStart_0,
                                    alt: ks[i as int + 1]->Text_0,
                                },
                            ]);
                            assert forall|rest: Seq<ImageRefV>|
                                spec_scan(ks, i as int + 3) == Ok::<_, MarkdownStructureError>(
                                    rest,
                                ) implies spec_scan(ks, 0) == Ok::<_, MarkdownStructureError>(
                                refs_view(refs@) + rest,
                            ) by {
                                let one = seq![
                                    ImageRefV {
                                        pos: i as int,
                                        dest_url: ks[i as int]->ImageStart_0,
                                        alt: ks[i as int + 1]->Text_0,
                                    },
                                ];
                                assert(spec_scan(ks, i as int) == Ok::<
                                    _,
                                    MarkdownStructureError,
                                >(one + rest));
                                assert(refs0 + (one + rest) =~= (refs0 + one) + rest);
                            }
                        }
                        i += 3;
                    },
                    _ => {
                        proof {
                            assert(!(ks[i as int + 1] is Text));
                            assert(spec_scan(ks, i as int) == Err::<Seq<ImageRefV>, _>(
                                MarkdownStructureError::NoAltText,
                            ));
                        }
                        return Err(MarkdownStructureError::NoAltText);
                    },
                }
            },
            _ => {
                proof {
                    assert(!(ks[i as int] is ImageStart));
                }
                i += 1;
            },
        }
    }
    proof {
        assert(spec_scan(ks, i as int) == Ok::<_, MarkdownStructureError>(
            Seq::<ImageRefV>::empty(),
        ));
        assert(refs_view(refs@) + Seq::<ImageRefV>::empty() =~= refs_view(refs@));
    }
    Ok(refs)
}

/// The character of one decimal digit.
pub open spec fn digit_char(d: nat) -> char {
    if d == 0 {
        '0'
    } else if d == 1 {
        '1'
    } else if d == 2 {
        '2'
    } else if d == 3 {
        '3'
    } else if d == 4 {
        '4'
    } else if d == 5 {
        '5'
    } else if d == 6 {
        '6'
    } else if d == 7 {
        '7'
    } else if d == 8 {
        '8'
    } else {
        '9'
    }
}

/// The decimal digit characters of a number, most significant first, with
/// no sign and no leading zeros.
pub open spec fn dec_str_of(n: nat) -> Seq<char>
    decreases n,
{
    if n < 10 {
        seq![digit_char(n)]
    } else {
        dec_str_of(n / 10).push(digit_char(n % 10))
    }
}

fn digit_str(d: u32) -> (r: &'static str)
    requires
        d < 10,
    ensures
        r@ == seq![digit_char(d as nat)],
{
    if d == 0 {
        proof {
            reveal_strlit("0");
            assert("0"@ =~= seq![digit_char(0)]);
        }
        "0"
    } else if d == 1 {
        proof {
            reveal_strlit("1");
            assert("1"@ =~= seq![digit_char(1)]);
        }
        "1"
    } else if d == 2 {
        proof {
            reveal_strlit("2");
            assert("2"@ =~= seq![digit_char(2)]);
        }
        "2"
    } else if d == 3 {
        proof {
            reveal_strlit("3");
            assert("3"@ =~= seq![digit_char(3)]);
        }
        "3"
    } else if d == 4 {
        proof {
            reveal_strlit("4");
            assert("4"@ =~= seq![digit_char(4)]);
        }
        "4"
    } else if d == 5 {
        proof {
            reveal_strlit("5");
            assert("5"@ =~= seq![digit_char(5)]);
        }
        "5"
    } else if d == 6 {
        proof {
            reveal_strlit("6");
            assert("6"@ =~= seq![digit_char(6)]);
        }
        "6"
    } else if d == 7 {
        proof {
            reveal_strlit("7");
            assert("7"@ =~= seq![digit_char(7)]);
        }
        "7"
    } else if d == 8 {
        proof {
            reveal_strlit("8");
            assert("8"@ =~= seq![digit_char(8)]);
        }
        "8"
    } else {
        proof {
            reveal_strlit("9");
            assert("9"@ =~= seq![digit_char(9)]);
        }
        "9"
    }
}

/// Renders a number in decimal.
pub fn u32_to_string(n: u32) -> (r: String)
    ensures
        r@ == dec_str_of(n as nat),
    decreases n,
{
    if n < 10 {
        digit_str(n).to_owned()
    } else {
        let mut s = u32_to_string(n / 10);
        s.append(digit_str(n % 10));
        proof {
            assert(s@ =~= dec_str_of((n / 10) as nat).push(digit_char((n % 10) as nat)));
        }
        s
    }
}

/// One alternate rendition of an image: its reference path and media type.
pub struct PictureSource {
    pub path: String,
    pub media_type: String,
}

/// The transcoder's descriptor for one image: alternate renditions in
/// preference order, the universally renderable fallback, and the intrinsic
/// pixel size.
pub struct PictureImages {
    pub sources: Vec<PictureSource>,
    pub fallback_path: String,
    pub height: u32,
    pub width: u32,
}

pub open spec fn sources_view(ps: Seq<PictureSource>) -> Seq<(Seq<char>, Seq<char>)> {
    ps.map_values(|p: PictureSource| (p.path@, p.media_type@))
}

/// The ghost shape of a picture descriptor.
pub struct PictureV {
    pub sources: Seq<(Seq<char>, Seq<char>)>,
    pub fallback: Seq<char>,
    pub height: u32,
    pub width: u32,
}

pub open spec fn picture_view(pi: PictureImages) -> PictureV {
    PictureV {
        sources: sources_view(pi.sources@),
        fallback: pi.fallback_path@,
        height: pi.height,
        width: pi.width,
    }
}

/// The `<source>` fragment for one alternate rendition.
pub open spec fn source_fragment(path: Seq<char>, media_type: Seq<char>) -> Seq<char> {
    "<source srcset=\""@ + path + "\" type=\""@ + media_type + "\">"@
}

/// The `<img>` fallback fragment with its alternative text and intrinsic
/// size.
pub open spec fn img_fragment(src: Seq<char>, alt: Seq<char>, height: u32, width: u32) -> Seq<
    char,
> {
    "<img src=\""@ + src + "\" alt=\""@ + alt + "\" height=\""@ + dec_str_of(height as nat)
        + "\" width=\""@ + dec_str_of(width as nat) + "\">"@
}

fn source_fragment_exec(path: &str, media_type: &str) -> (r: String)
    ensures
        r@ == source_fragment(path@, media_type@),
{
    let mut s = "<source srcset=\"".to_owned();
    s.append(path);
    s.append("\" type=\"");
    s.append(media_type);
    s.append("\">");
    proof {
        assert(s@ =~= source_fragment(path@, media_type@));
    }
    s
}

fn img_fragment_exec(src: &str, alt: &str, height: u32, width: u32) -> (r: String)
    ensures
        r@ == img_fragment(src@, alt@, height, width),
{
    let mut s = "<img src=\"".to_owned();
    s.append(src);
    s.append("\" alt=\"");
    s.append(alt);
    s.append("\" height=\"");
    let h = u32_to_string(height);
    s.append(h.as_str());
    s.append("\" width=\"");
    let w = u32_to_string(width);
    s.append(w.as_str());
    s.append("\">");
    proof {
        assert(s@ =~= img_fragment(src@, alt@, height, width));
    }
    s
}

/// One step of the rewrite: keep an original event, or emit a synthesized
/// HTML event.
#[derive(Debug)]
pub enum PlanItem {
    Keep(usize),
    HtmlBlockStart,
    Html(String),
    HtmlBlockEnd,
}

/// The ghost shape of a rewrite step.
pub enum PlanItemV {
    Keep(int),
    HtmlBlockStart,
    Html(Seq<char>),
    HtmlBlockEnd,
}

pub open spec fn plan_view(p: PlanItem) -> PlanItemV {
    match p {
        PlanItem::Keep(i) => PlanItemV::Keep(i as int),
        PlanItem::HtmlBlockStart => PlanItemV::HtmlBlockStart,
        PlanItem::Html(s) => PlanItemV::Html(s@),
        PlanItem::HtmlBlockEnd => PlanItemV::HtmlBlockEnd,
    }
}

pub open spec fn plans_view(ps: Seq<PlanItem>) -> Seq<PlanItemV> {
    ps.map_values(|p: PlanItem| plan_view(p))
}

/// The rewrite steps standing in for one image node: an HTML block holding
/// `<picture>`, one `<source>` per alternate rendition in the descriptor's
/// order, the `<img>` fallback, and `</picture>`.
pub open spec fn picture_items(pv: PictureV, alt: Seq<char>) -> Seq<PlanItemV> {
    seq![PlanItemV::HtmlBlockStart, PlanItemV::Html("<picture>"@)] + pv.sources.map_values(
        |p: (Seq<char>, Seq<char>)| PlanItemV::Html(source_fragment(p.0, p.1)),
    ) + seq![
        PlanItemV::Html(img_fragment(pv.fallback, alt, pv.height, pv.width)),
        PlanItemV::Html("</picture>"@),
        PlanItemV::HtmlBlockEnd,
    ]
}

pub fn picture_plan(pi: &PictureImages, alt: &str) -> (r: Vec<PlanItem>)
    ensures
        plans_view(r@) == picture_items(picture_view(*pi), alt@),
{
    let ghost target = picture_items(picture_view(*pi), alt@);
    let mut out: Vec<PlanItem> = Vec::new();
    out.push(PlanItem::HtmlBlockStart);
    out.push(PlanItem::Html("<picture>".to_owned()));
    let mut k: usize = 0;
    while k < pi.sources.len()
        invariant
            target == picture_items(picture_view(*pi), alt@),
            k <= pi.sources@.len(),
            out@.len() == k + 2,
            forall|j: int| 0 <= j < out@.len() ==> plans_view(out@)[j] == target[j],
        decreases pi.sources@.len() - k,
    {
        let frag = source_fragment_exec(
            pi.sources[k].path.as_str(),
            pi.sources[k].media_type.as_str(),
        );
        out.push(PlanItem::Html(frag));
        proof {
            assert(sources_view(pi.sources@)[k as int] == (
                pi.sources@[k as int].path@,
                pi.sources@[k as int].media_type@,
            ));
        }
        k += 1;
    }
    let img = img_fragment_exec(pi.fallback_path.as_str(), alt, pi.height, pi.width);
    out.push(PlanItem::Html(img));
    out.push(PlanItem::Html("</picture>".to_owned()));
    out.push(PlanItem::HtmlBlockEnd);
    proof {
        assert(plans_view(out@) =~= target);
    }
    out
}

/// The literal alternative text carried by the text event at position `i`.
pub open spec fn alt_at(ks: Seq<MdEventKindV>, i: int) -> Seq<char> {
    match ks[i] {
        MdEventKindV::Text(content) => content,
        _ => Seq::empty(),
    }
}

/// The whole rewrite plan from position `i` on, with `d` descriptors
/// already consumed: image nodes are replaced by their picture items,
/// every other event is kept in order.
pub open spec fn spec_plan(
    ks: Seq<MdEventKindV>,
    pv: Seq<PictureV>,
    i: int,
    d: int,
) -> Seq<PlanItemV>
    decreases ks.len() - i,
{
    if i < 0 || i >= ks.len() {
        Seq::empty()
    } else {
        match ks[i] {
            MdEventKindV::ImageStart(_) => {
                let tail = if i + 3 <= ks.len() {
                    spec_plan(ks, pv, i + 3, d + 1)
                } else {
                    Seq::empty()
                };
                picture_items(pv[d], alt_at(ks, i + 1)) + tail
            },
            _ => seq![PlanItemV::Keep(i)] + spec_plan(ks, pv, i + 1, d),
        }
    }
}

/// Builds the rewrite plan for a stream whose image grammar has been
/// validated, consuming one picture descriptor per image reference.
pub fn build_plan(kinds: &Vec<MdEventKind>, pics: &Vec<PictureImages>) -> (r: Vec<PlanItem>)
    requires
        spec_scan(kinds_view(kinds@), 0) matches Ok(srefs) && srefs.len() == pics@.len(),
    ensures
        plans_view(r@) == spec_plan(
            kinds_view(kinds@),
            pics@.map_values(|p: PictureImages| picture_view(p)),
            0,
            0,
        ),
{
    let ghost ks = kinds_view(kinds@);
    let ghost pv = pics@.map_values(|p: PictureImages| picture_view(p));
    let ghost srefs = spec_scan(ks, 0)->Ok_0;
    let mut out: Vec<PlanItem> = Vec::new();
    let np = pics.len();
    let mut i: usize = 0;
    let mut d: usize = 0;
    proof {
        assert(pv.len() == pics@.len());
    }
    while i < kinds.len()
        invariant
            ks == kinds_view(kinds@),
            ks.len() == kinds@.len(),
            pv == pics@.map_values(|p: PictureImages| picture_view(p)),
            pv.len() == pics@.len(),
            i <= ks.len(),
            np == pv.len(),
            d <= np,
            spec_scan(ks, i as int) matches Ok(rest) && rest.len() == pv.len() - d,
            plans_view(out@) + spec_plan(ks, pv, i as int, d as int) == spec_plan(ks, pv, 0, 0),
        decreases ks.len() - i,
    {
        let ghost out0 = plans_view(out@);
        proof {
            assert(ks[i as int] == kind_view(kinds@[i as int]));
        }
        match &kinds[i] {
            MdEventKind::ImageStart { dest_url: _ } => {
                proof {
                    assert(ks[i as int] is ImageStart);
                    assert(spec_scan(ks, i as int) matches Ok(rest) && rest.len() >= 1);
                    assert(i + 2 < ks.len());
                    assert(ks[i as int + 1] is Text);
                    assert(ks[i as int + 2] is ImageEnd);
                    assert(d < pv.len());
                    assert(spec_scan(ks, i as int + 3) matches Ok(rest3) && rest3.len() == pv.len()
                        - (d + 1));
                }
                proof {
                    assert(ks[i as int + 1] == kind_view(kinds@[i as int + 1]));
                }
                let alt = match &kinds[i + 1] {
                    MdEventKind::Text { content } => {
                        proof {
                            assert(alt_at(ks, i as int + 1) == content@);
                        }
                        content.clone()
                    },
                    _ => {
                        proof {
                            assert(false);
                        }
                        String::new()
                    },
                };
                let items = picture_plan(&pics[d], alt.as_str());
                let mut m: usize = 0;
                while m < items.len()
                    invariant
                        m <= items@.len(),
                        out@.len() == out0.len() + m,
                        plans_view(items@) == picture_items(pv[d as int], alt_at(ks, i as int + 1)),
                        d < pv.len(),
                        forall|j: int| 0 <= j < out0.len() ==> plans_view(out@)[j] == out0[j],
                        forall|j: int|
                            0 <= j < m ==> plans_view(out@)[out0.len() + j] == plans_view(
                                items@,
                            )[j],
                    decreases items@.len() - m,
                {
                    let it = match &items[m] {
                        PlanItem::Keep(x) => PlanItem::Keep(*x),
                        PlanItem::HtmlBlockStart => PlanItem::HtmlBlockStart,
                        PlanItem::Html(s) => PlanItem::Html(s.clone()),
                        PlanItem::HtmlBlockEnd => PlanItem::HtmlBlockEnd,
                    };
                    proof {
                        assert(plan_view(it) == plans_view(items@)[m as int]);
                    }
                    out.push(it);
                    m += 1;
                }
                proof {
                    assert(plans_view(out@) =~= out0 + picture_items(
                        pv[d as int],
                        alt_at(ks, i as int + 1),
                    ));
                    assert((out0 + picture_items(pv[d as int], alt_at(ks, i as int + 1)))
                        + spec_plan(ks, pv, i as int + 3, d as int + 1) =~= out0 + (picture_items(
                        pv[d as int],
                        alt_at(ks, i as int + 1),
                    ) + spec_plan(ks, pv, i as int + 3, d as int + 1)));
                }
                i += 3;
                d += 1;
            },
            _ => {
                proof {
                    assert(!(ks[i as int] is ImageStart));
                }
                out.push(PlanItem::Keep(i));
                proof {
                    assert(plans_view(out@) =~= out0 + seq![PlanItemV::Keep(i as int)]);
                    assert((out0 + seq![PlanItemV::Keep(i as int)]) + spec_plan(
                        ks,
                        pv,
                        i as int + 1,
                        d as int,
                    ) =~= out0 + (seq![PlanItemV::Keep(i as int)] + spec_plan(
                        ks,
                        pv,
                        i as int + 1,
                        d as int,
                    )));
                }
                i += 1;
            },
        }
    }
    proof {
        assert(spec_plan(ks, pv, i as int, d as int) =~= Seq::<PlanItemV>::empty());
        assert(plans_view(out@) + Seq::<PlanItemV>::empty() =~= plans_view(out@));
    }
    out
}

/// Every kept index in the plan points into the stream.
pub proof fn lemma_plan_keeps_bounded(ks: Seq<MdEventKindV>, pv: Seq<PictureV>, i: int, d: int)
    ensures
        forall|j: int|
            0 <= j < spec_plan(ks, pv, i, d).len() ==> (#[trigger] spec_plan(ks, pv, i, d)[j]
            matches PlanItemV::Keep(x) ==> 0 <= x < ks.len()),
    decreases ks.len() - i,
{
    if 0 <= i < ks.len() {
        match ks[i] {
            MdEventKindV::ImageStart(_) => {
                if i + 3 <= ks.len() {
                    lemma_plan_keeps_bounded(ks, pv, i + 3, d + 1);
                }
                assert forall|j: int|
                    0 <= j < spec_plan(ks, pv, i, d).len() implies (#[trigger] spec_plan(
                    ks,
                    pv,
                    i,
                    d,
                )[j] matches PlanItemV::Keep(x) ==> 0 <= x < ks.len()) by {
                    let pre = picture_items(pv[d], alt_at(ks, i + 1));
                    if j >= pre.len() {
                        assert(spec_plan(ks, pv, i, d)[j] == spec_plan(ks, pv, i + 3, d + 1)[j
                            - pre.len()]);
                    } else {
                        assert(!(spec_plan(ks, pv, i, d)[j] matches PlanItemV::Keep(x)))
                            by {
                            if j == 0 || j == 1 || j >= pre.len() - 3 {
                            } else {
                                assert(pre[j] == pv[d].sources.map_values(
                                    |p: (Seq<char>, Seq<char>)|
                                        PlanItemV::Html(source_fragment(p.0, p.1)),
                                )[j - 2]);
                            }
                        }
                    }
                }
            },
            _ => {
                lemma_plan_keeps_bounded(ks, pv, i + 1, d);
                assert forall|j: int|
                    0 <= j < spec_plan(ks, pv, i, d).len() implies (#[trigger] spec_plan(
                    ks,
                    pv,
                    i,
                    d,
                )[j] matches PlanItemV::Keep(x) ==> 0 <= x < ks.len()) by {
                    if j > 0 {
                        assert(spec_plan(ks, pv, i, d)[j] == spec_plan(ks, pv, i + 1, d)[j - 1]);
                    }
                }
            },
        }
    }
}

/// Law: a stream with no image-start events passes through unchanged: the
/// plan keeps every event, in order, and synthesizes nothing.
pub proof fn lemma_no_images_passthrough(ks: Seq<MdEventKindV>, pv: Seq<PictureV>)
    requires
        forall|i: int| 0 <= i < ks.len() ==> !(ks[i] is ImageStart),
    ensures
        spec_plan(ks, pv, 0, 0) == Seq::new(ks.len() as nat, |i: int| PlanItemV::Keep(i)),
{
    lemma_no_images_from(ks, pv, 0, 0);
}

proof fn lemma_no_images_from(ks: Seq<MdEventKindV>, pv: Seq<PictureV>, i: int, d: int)
    requires
        0 <= i <= ks.len(),
        forall|j: int| 0 <= j < ks.len() ==> !(ks[j] is ImageStart),
    ensures
        spec_plan(ks, pv, i, d) == Seq::new((ks.len() - i) as nat, |j: int| PlanItemV::Keep(i + j)),
    decreases ks.len() - i,
{
    if i < ks.len() {
        lemma_no_images_from(ks, pv, i + 1, d);
        assert(spec_plan(ks, pv, i, d) =~= Seq::new(
            (ks.len() - i) as nat,
            |j: int| PlanItemV::Keep(i + j),
        ));
    } else {
        assert(spec_plan(ks, pv, i, d) =~= Seq::new(
            (ks.len() - i) as nat,
            |j: int| PlanItemV::Keep(i + j),
        ));
    }
}

/// Law: in the rewrite steps for one image, every `<source>` fragment
/// stands before the `<img>` fallback fragment, and they keep the
/// descriptor's order.
pub proof fn lemma_picture_markup_ordering(pv: PictureV, alt: Seq<char>)
    ensures
        ({
            let items = picture_items(pv, alt);
            &&& items.len() == pv.sources.len() + 5
            &&& forall|k: int|
                0 <= k < pv.sources.len() ==> items[2 + k] == PlanItemV::Html(
                    source_fragment(pv.sources[k].0, pv.sources[k].1),
                )
            &&& items[pv.sources.len() as int + 2] == PlanItemV::Html(
                img_fragment(pv.fallback, alt, pv.height, pv.width),
            )
        }),
{
    let items = picture_items(pv, alt);
    assert forall|k: int| 0 <= k < pv.sources.len() implies items[2 + k] == PlanItemV::Html(
        source_fragment(pv.sources[k].0, pv.sources[k].1),
    ) by {
        assert(items[2 + k] == pv.sources.map_values(
            |p: (Seq<char>, Seq<char>)| PlanItemV::Html(source_fragment(p.0, p.1)),
        )[k]);
    }
}

/// Turns a rewrite plan back into an event stream, cloning kept events and
/// wrapping synthesized fragments.
pub fn assemble_events(events: &Vec<pulldown_cmark::Event<'static>>, plan: Vec<PlanItem>) -> (r:
    Vec<pulldown_cmark::Event<'static>>)
    requires
        forall|j: int|
            0 <= j < plan@.len() ==> (#[trigger] plan@[j] matches PlanItem::Keep(x) ==> x
                < events@.len()),
    ensures
        r@.len() == plan@.len(),
        forall|j: int|
            0 <= j < plan@.len() ==> (#[trigger] plan@[j] matches PlanItem::Keep(x) ==> r@[j]
                == events@[x as int]),
{
    let mut out: Vec<pulldown_cmark::Event<'static>> = Vec::new();
    let n = plan.len();
    let rest = plan;
    proof {
        assert(rest@.len() == n);
    }
    let mut idx: usize = 0;
    while idx < rest.len()
        invariant
            rest@.len() == n,
            idx <= n,
            out@.len() == idx,
            forall|j: int|
                0 <= j < rest@.len() ==> (#[trigger] rest@[j] matches PlanItem::Keep(x) ==> x
                    < events@.len()),
            forall|j: int|
                0 <= j < idx ==> (#[trigger] rest@[j] matches PlanItem::Keep(x) ==> out@[j]
                    == events@[x as int]),
        decreases n - idx,
    {
        let item = match &rest[idx] {
            PlanItem::Keep(x) => {
                proof {
                    assert(rest@[idx as int] matches PlanItem::Keep(y) && y == *x);
                }
                clone_event(&events[*x])
            },
            PlanItem::HtmlBlockStart => html_block_start(),
            PlanItem::HtmlBlockEnd => html_block_end(),
            PlanItem::Html(s) => html_event(s.clone()),
        };
        out.push(item);
        idx += 1;
    }
    out
}

/// Serializes a finished event stream to HTML.
pub(crate) fn serialize_events(events: Vec<pulldown_cmark::Event<'static>>) -> String {
    events_to_html(events)
}

/// Resolving an image destination URL against the post's source directory:
/// an absolute URL stands alone, a relative one is joined with a slash.
pub open spec fn spec_resolve(dir: Seq<char>, url: Seq<char>) -> Seq<char> {
    if url.len() > 0 && url[0] == '/' {
        url
    } else {
        dir + seq!['/'] + url
    }
}

pub fn resolve_path(dir: &str, url: &str) -> (r: String)
    ensures
        r@ == spec_resolve(dir@, url@),
{
    let n = url.unicode_len();
    if n > 0 && url.get_char(0) == '/' {
        url.to_owned()
    } else {
        let mut r = dir.to_owned();
        r.append("/");
        proof {
            reveal_strlit("/");
            assert("/"@ =~= seq!['/']);
        }
        r.append(url);
        proof {
            assert(r@ =~= spec_resolve(dir@, url@));
        }
        r
    }
}

} // verus!
