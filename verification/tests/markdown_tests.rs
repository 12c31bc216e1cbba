use blogamer::BlogError;
use blogamer::Context;
use blogamer::MarkdownStructureError;
use blogamer::Opts;
use blogamer::markdown::PictureImages;
use blogamer::markdown::PictureSource;
use blogamer::markdown::PlanItem;
use blogamer::markdown::picture_plan;
use blogamer::pipeline::render_body;

fn fresh_context(optimize: bool) -> Context {
    Context::new(Opts { optimize, input: String::new(), output: String::new() })
}

fn html_of(item: &PlanItem) -> String {
    match item {
        PlanItem::Html(s) => s.clone(),
        other => panic!("expected an html item, got {other:?}"),
    }
}

#[test]
fn non_image_markdown_passes_through_byte_identical() {
    let md = "# Title\n\n| a | b |\n|---|---|\n| 1 | 2 |\n\n~~gone~~ kept[^1]\n\n[^1]: a note\n";
    let mut ctx = fresh_context(false);
    let ours = render_body(&mut ctx, "posts/x", md, &vec![]).unwrap();

    let mut options = pulldown_cmark::Options::empty();
    options.insert(pulldown_cmark::Options::ENABLE_TABLES);
    options.insert(pulldown_cmark::Options::ENABLE_FOOTNOTES);
    options.insert(pulldown_cmark::Options::ENABLE_STRIKETHROUGH);
    let parser = pulldown_cmark::Parser::new_ext(md, options);
    let mut expected = String::new();
    pulldown_cmark::html::push_html(&mut expected, parser);

    assert_eq!(ours, expected);
}

#[test]
fn image_without_alt_text_is_rejected() {
    let mut ctx = fresh_context(false);
    let r = render_body(&mut ctx, "posts/x", "![](cat.png)\n", &vec![]);
    assert!(matches!(
        r,
        Err(BlogError::Markdown(MarkdownStructureError::NoAltText))
    ));
}

#[test]
fn image_with_markup_in_alt_text_is_rejected() {
    let mut ctx = fresh_context(false);
    let r = render_body(&mut ctx, "posts/x", "![a*b*](cat.png)\n", &vec![]);
    assert!(matches!(
        r,
        Err(BlogError::Markdown(MarkdownStructureError::NoImageEnd))
    ));
}

#[test]
fn picture_plan_puts_sources_before_fallback_in_order() {
    let pi = PictureImages {
        sources: vec![
            PictureSource {
                path: "/static/a.avif".to_owned(),
                media_type: "image/avif".to_owned(),
            },
            PictureSource {
                path: "/static/a.webp".to_owned(),
                media_type: "image/webp".to_owned(),
            },
        ],
        fallback_path: "/static/a.jpg".to_owned(),
        height: 480,
        width: 640,
    };
    let items = picture_plan(&pi, "a cat");
    assert_eq!(items.len(), 7);
    assert!(matches!(items[0], PlanItem::HtmlBlockStart));
    assert_eq!(html_of(&items[1]), "<picture>");
    assert_eq!(
        html_of(&items[2]),
        "<source srcset=\"/static/a.avif\" type=\"image/avif\">"
    );
    assert_eq!(
        html_of(&items[3]),
        "<source srcset=\"/static/a.webp\" type=\"image/webp\">"
    );
    assert_eq!(
        html_of(&items[4]),
        "<img src=\"/static/a.jpg\" alt=\"a cat\" height=\"480\" width=\"640\">"
    );
    assert_eq!(html_of(&items[5]), "</picture>");
    assert!(matches!(items[6], PlanItem::HtmlBlockEnd));
}

#[test]
fn picture_plan_without_sources_has_only_the_fallback() {
    let pi = PictureImages {
        sources: vec![],
        fallback_path: "/static/b.jpg".to_owned(),
        height: 1,
        width: 2,
    };
    let items = picture_plan(&pi, "x");
    assert_eq!(items.len(), 5);
    assert_eq!(
        html_of(&items[2]),
        "<img src=\"/static/b.jpg\" alt=\"x\" height=\"1\" width=\"2\">"
    );
}
