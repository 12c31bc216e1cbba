use blogamer::BlogError;
use blogamer::Context;
use blogamer::ImageError;
use blogamer::Opts;
use blogamer::frontmatter::load;
use blogamer::images::register_picture;
use blogamer::markdown::resolve_path;
use blogamer::pipeline::image_refs;
use blogamer::pipeline::post_name_of;
use blogamer::pipeline::render_body;
use blogamer::store::AssetStore;
use blogamer::store::create_hash_string;

fn fresh_context(optimize: bool) -> Context {
    Context::new(Opts { optimize, input: String::new(), output: String::new() })
}

fn tiny_png() -> Vec<u8> {
    let img = image::RgbImage::from_pixel(3, 2, image::Rgb([10u8, 20, 30]));
    let dynimg = image::DynamicImage::ImageRgb8(img);
    let mut bytes: Vec<u8> = Vec::new();
    dynimg
        .write_to(&mut std::io::Cursor::new(&mut bytes), image::ImageFormat::Png)
        .unwrap();
    bytes
}

#[test]
fn post_name_of_accepts_markdown_files_and_directories() {
    assert_eq!(post_name_of("hello.md", false).unwrap(), "hello");
    assert_eq!(post_name_of("hello", true).unwrap(), "hello");
}

#[test]
fn post_name_of_rejects_other_filename_shapes() {
    assert!(matches!(
        post_name_of("hello.txt", false),
        Err(BlogError::InvalidPostFilename(_))
    ));
    assert!(matches!(
        post_name_of("noext", false),
        Err(BlogError::InvalidPostFilename(_))
    ));
    assert!(matches!(
        post_name_of("a.b.md", false),
        Err(BlogError::InvalidPostFilename(_))
    ));
}

#[test]
fn resolve_path_joins_relative_and_keeps_absolute() {
    assert_eq!(resolve_path("posts/hello", "cat.png"), "posts/hello/cat.png");
    assert_eq!(resolve_path("posts/hello", "/theme/cat.png"), "/theme/cat.png");
}

#[test]
fn register_picture_orders_modern_sources_before_fallback() {
    let mut store = AssetStore::new();
    let pi = register_picture(
        &mut store,
        "pic",
        vec![1u8, 2],
        Some((vec![3u8, 4], vec![5u8, 6])),
        640,
        480,
    )
    .unwrap();
    assert_eq!(pi.sources.len(), 2);
    assert_eq!(pi.sources[0].media_type, "image/avif");
    assert!(pi.sources[0].path.ends_with(".avif"));
    assert_eq!(pi.sources[1].media_type, "image/webp");
    assert!(pi.sources[1].path.ends_with(".webp"));
    let jpg_hash = create_hash_string(&[1u8, 2]);
    assert_eq!(pi.fallback_path, format!("/static/pic-{jpg_hash}.jpg"));
    assert_eq!(pi.width, 640);
    assert_eq!(pi.height, 480);
    assert_eq!(store.len(), 3);
}

#[test]
fn register_picture_without_modern_pair_registers_only_the_fallback() {
    let mut store = AssetStore::new();
    let pi = register_picture(&mut store, "pic", vec![1u8, 2], None, 10, 20).unwrap();
    assert_eq!(pi.sources.len(), 0);
    assert_eq!(store.len(), 1);
}

#[test]
fn missing_image_bytes_are_reported() {
    let mut ctx = fresh_context(false);
    let r = render_body(&mut ctx, "posts/x", "![a](b.png)\n", &vec![]);
    match r {
        Err(BlogError::MissingImageData(p)) => assert_eq!(p, "posts/x/b.png"),
        other => panic!("expected missing image data, got {other:?}"),
    }
}

#[test]
fn undecodable_image_bytes_are_reported() {
    let mut ctx = fresh_context(false);
    let images = vec![("posts/x/b.png".to_owned(), vec![1u8, 2, 3])];
    let r = render_body(&mut ctx, "posts/x", "![a](b.png)\n", &images);
    assert!(matches!(r, Err(BlogError::Image(ImageError::Decode(_)))));
}

#[test]
fn image_path_without_a_name_is_reported() {
    let mut ctx = fresh_context(false);
    let r = ctx.add_image("posts/x/", &tiny_png());
    assert!(matches!(r, Err(BlogError::Image(ImageError::NoName))));
    let r2 = ctx.add_image("posts/..", &tiny_png());
    assert!(matches!(r2, Err(BlogError::Image(ImageError::NoName))));
    assert_eq!(ctx.static_files.len(), 0);
}

#[test]
fn end_to_end_single_post_without_optimization() {
    let raw = "---\ntitle: Hello\ndate: 2024-01-01\n---\n# Hi\n\n![a cat](cat.png)\n";
    let (fm, body) = load(raw).unwrap();
    assert_eq!(fm.title, "Hello");
    assert_eq!(fm.date, "2024-01-01");

    let urls = image_refs(&body).unwrap();
    assert_eq!(urls, vec!["cat.png".to_owned()]);

    let relative_to = "posts/hello";
    let png = tiny_png();
    let images = vec![(resolve_path(relative_to, &urls[0]), png)];

    let mut ctx = fresh_context(false);
    let html = render_body(&mut ctx, relative_to, &body, &images).unwrap();

    assert!(html.contains("<h1>Hi</h1>"));
    assert!(html.contains("<picture>"));
    assert!(html.contains("</picture>"));
    assert!(!html.contains("<source"));
    assert!(html.contains("alt=\"a cat\""));
    assert!(html.contains("src=\"/static/cat-"));
    assert!(html.contains("height=\"2\" width=\"3\""));

    assert_eq!(ctx.static_files.len(), 1);
    let (id, jpeg_bytes) = ctx.static_files.get(0);
    assert!(id.starts_with("cat-"));
    assert!(id.ends_with(".jpg"));
    assert_eq!(id, &format!("cat-{}.jpg", create_hash_string(jpeg_bytes)));
    assert!(html.contains(&format!("src=\"/static/{id}\"")));
    assert_eq!(
        image::guess_format(jpeg_bytes).unwrap(),
        image::ImageFormat::Jpeg
    );
}

#[test]
fn optimized_rendering_puts_modern_sources_before_the_fallback() {
    let body = "![a cat](cat.png)\n";
    let relative_to = "posts/hello";
    let images = vec![(resolve_path(relative_to, "cat.png"), tiny_png())];
    let mut ctx = fresh_context(true);
    let html = render_body(&mut ctx, relative_to, body, &images).unwrap();

    let avif_at = html.find("type=\"image/avif\"").expect("no avif source");
    let webp_at = html.find("type=\"image/webp\"").expect("no webp source");
    let img_at = html.find("<img ").expect("no fallback img");
    assert!(avif_at < webp_at);
    assert!(webp_at < img_at);
    assert_eq!(html.matches("<source ").count(), 2);
    assert_eq!(ctx.static_files.len(), 3);
}

#[test]
fn rendering_the_same_image_twice_stores_it_once() {
    let body = "![a cat](cat.png)\n\n![same cat](cat.png)\n";
    let relative_to = "posts/hello";
    let images = vec![(resolve_path(relative_to, "cat.png"), tiny_png())];
    let mut ctx = fresh_context(false);
    let html = render_body(&mut ctx, relative_to, body, &images).unwrap();
    assert_eq!(ctx.static_files.len(), 1);
    assert!(html.contains("alt=\"a cat\""));
    assert!(html.contains("alt=\"same cat\""));
}

#[test]
fn theme_stylesheet_registration_yields_its_reference_path() {
    let mut ctx = fresh_context(false);
    let css = b"body { margin: 0; }".to_vec();
    let path = ctx.add_static_file("theme", ".css", css.clone()).unwrap();
    assert_eq!(path, format!("/static/theme-{}.css", create_hash_string(&css)));
    ctx.theme_css_path = path;
    assert_eq!(ctx.static_files.len(), 1);
}
