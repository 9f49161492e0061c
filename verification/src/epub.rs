//! The EPUB package: container, stylesheet, navigation, cover page and package
//! document, and the list of archive entries in the order they are written.
use vstd::prelude::*;
use crate::models::{ImageAsset, RenderedBook, RenderedChapter};
use crate::text::{
    chars_of, decimal, digit_char, extend_chars, is_ascii_digit, extend_str, opt_view, string_of, strings_view, xml_escape,
    xml_escape_spec, zero_padded, zero_padded_exec,
};

verus! {

/// The container document that points readers at the package document.
pub open spec fn container_xml_spec() -> Seq<char> {
    "<?xml version=\"1.0\" encoding=\"UTF-8\"?>\n<container version=\"1.0\" xmlns=\"urn:oasis:names:tc:opendocument:xmlns:container\">\n  <rootfiles>\n    <rootfile full-path=\"OEBPS/content.opf\" media-type=\"application/oebps-package+xml\"/>\n  </rootfiles>\n</container>\n"@
}

pub fn container_xml() -> (r: &'static str)
    ensures
        r@ == container_xml_spec(),
{
    "<?xml version=\"1.0\" encoding=\"UTF-8\"?>\n<container version=\"1.0\" xmlns=\"urn:oasis:names:tc:opendocument:xmlns:container\">\n  <rootfiles>\n    <rootfile full-path=\"OEBPS/content.opf\" media-type=\"application/oebps-package+xml\"/>\n  </rootfiles>\n</container>\n"
}

/// The book's stylesheet.
pub open spec fn book_css_spec() -> Seq<char> {
    "body {\n  font-family: Georgia, \"Times New Roman\", serif;\n  line-height: 1.5;\n  margin: 0;\n  padding: 1rem;\n}\n\nh1, h2, h3, h4, h5, h6 {\n  line-height: 1.2;\n  margin-top: 1.3em;\n  margin-bottom: 0.6em;\n}\n\nh1 { font-size: 1.8rem; }\nh2 { font-size: 1.5rem; }\nh3 { font-size: 1.25rem; }\n\nimg {\n  max-width: 100%;\n  height: auto;\n}\n\nbody.cover-page {\n  margin: 0;\n  padding: 0;\n  text-align: center;\n}\n\n.cover-frame {\n  margin: 0;\n  padding: 0;\n}\n\n.cover-frame img {\n  display: block;\n  width: 100%;\n  height: auto;\n}\n\nbody.comic-page {\n  margin: 0;\n  padding: 0;\n}\n\n.comic-frame {\n  margin: 0;\n  padding: 0;\n}\n\n.comic-frame img {\n  display: block;\n  width: 100%;\n  height: auto;\n}\n\ntable {\n  border-collapse: collapse;\n  width: 100%;\n  margin: 1rem 0;\n}\n\nth, td {\n  border: 1px solid #666;\n  padding: 0.35rem 0.45rem;\n  vertical-align: top;\n}\n\naside.callout {\n  border-left: 3px solid #666;\n  background: #f5f5f5;\n  padding: 0.6rem 0.8rem;\n  margin: 0.9rem 0;\n}\n"@
}

pub fn book_css() -> (r: &'static str)
    ensures
        r@ == book_css_spec(),
{
    "body {\n  font-family: Georgia, \"Times New Roman\", serif;\n  line-height: 1.5;\n  margin: 0;\n  padding: 1rem;\n}\n\nh1, h2, h3, h4, h5, h6 {\n  line-height: 1.2;\n  margin-top: 1.3em;\n  margin-bottom: 0.6em;\n}\n\nh1 { font-size: 1.8rem; }\nh2 { font-size: 1.5rem; }\nh3 { font-size: 1.25rem; }\n\nimg {\n  max-width: 100%;\n  height: auto;\n}\n\nbody.cover-page {\n  margin: 0;\n  padding: 0;\n  text-align: center;\n}\n\n.cover-frame {\n  margin: 0;\n  padding: 0;\n}\n\n.cover-frame img {\n  display: block;\n  width: 100%;\n  height: auto;\n}\n\nbody.comic-page {\n  margin: 0;\n  padding: 0;\n}\n\n.comic-frame {\n  margin: 0;\n  padding: 0;\n}\n\n.comic-frame img {\n  display: block;\n  width: 100%;\n  height: auto;\n}\n\ntable {\n  border-collapse: collapse;\n  width: 100%;\n  margin: 1rem 0;\n}\n\nth, td {\n  border: 1px solid #666;\n  padding: 0.35rem 0.45rem;\n  vertical-align: top;\n}\n\naside.callout {\n  border-left: 3px solid #666;\n  background: #f5f5f5;\n  padding: 0.6rem 0.8rem;\n  margin: 0.9rem 0;\n}\n"
}

// ---------------------------------------------------------------------------
// Navigation.
// ---------------------------------------------------------------------------

/// The table-of-contents entries of the chapters, one per line.
pub open spec fn nav_items(chapters: Seq<RenderedChapter>) -> Seq<char>
    decreases chapters.len(),
{
    if chapters.len() == 0 {
        seq![]
    } else {
        let c = chapters.last();
        nav_items(chapters.drop_last()) + "      <li><a href=\"text/"@ + c.file_name@ + "\">"@
            + xml_escape_spec(c.title@) + "</a></li>\n"@
    }
}

/// The navigation document.
pub open spec fn nav_xhtml_spec(book: RenderedBook) -> Seq<char> {
    "<?xml version=\"1.0\" encoding=\"utf-8\"?>\n<!DOCTYPE html>\n<html xmlns=\"http://www.w3.org/1999/xhtml\" xmlns:epub=\"http://www.idpf.org/2007/ops\" xml:lang=\""@
        + xml_escape_spec(book.language@)
        + "\">\n  <head>\n    <meta charset=\"utf-8\" />\n    <title>Contents</title>\n    <link rel=\"stylesheet\" type=\"text/css\" href=\"styles/book.css\" />\n  </head>\n  <body>\n    <nav epub:type=\"toc\" id=\"toc\">\n      <h1>Contents</h1>\n      <ol>\n"@
        + nav_items(book.chapters@) + "      </ol>\n    </nav>\n  </body>\n</html>\n"@
}

pub fn build_nav_xhtml(book: &RenderedBook) -> (r: String)
    ensures
        r@ == nav_xhtml_spec(*book),
{
    let mut items: Vec<char> = Vec::new();
    let mut i: usize = 0;
    while i < book.chapters.len()
        invariant
            i <= book.chapters.len(),
            items@ == nav_items(book.chapters@.take(i as int)),
        decreases book.chapters.len() - i,
    {
        let c = &book.chapters[i];
        extend_str(&mut items, "      <li><a href=\"text/");
        extend_str(&mut items, c.file_name.as_str());
        extend_str(&mut items, "\">");
        extend_str(&mut items, xml_escape(c.title.as_str()).as_str());
        extend_str(&mut items, "</a></li>\n");
        assert(book.chapters@.take(i as int + 1).drop_last() == book.chapters@.take(i as int));
        i += 1;
    }
    assert(book.chapters@.take(book.chapters.len() as int) == book.chapters@);
    let mut v: Vec<char> = Vec::new();
    extend_str(&mut v, "<?xml version=\"1.0\" encoding=\"utf-8\"?>\n<!DOCTYPE html>\n<html xmlns=\"http://www.w3.org/1999/xhtml\" xmlns:epub=\"http://www.idpf.org/2007/ops\" xml:lang=\"");
    extend_str(&mut v, xml_escape(book.language.as_str()).as_str());
    extend_str(&mut v, "\">\n  <head>\n    <meta charset=\"utf-8\" />\n    <title>Contents</title>\n    <link rel=\"stylesheet\" type=\"text/css\" href=\"styles/book.css\" />\n  </head>\n  <body>\n    <nav epub:type=\"toc\" id=\"toc\">\n      <h1>Contents</h1>\n      <ol>\n");
    extend_chars(&mut v, &items);
    extend_str(&mut v, "      </ol>\n    </nav>\n  </body>\n</html>\n");
    assert(v@ =~= nav_xhtml_spec(*book));
    string_of(&v)
}

/// The cover page, showing the cover image alone.
pub open spec fn cover_xhtml_spec(book: RenderedBook, cover_image: Seq<char>) -> Seq<char> {
    let title = xml_escape_spec(book.title@);
    "<?xml version=\"1.0\" encoding=\"utf-8\"?>\n<!DOCTYPE html>\n<html xmlns=\"http://www.w3.org/1999/xhtml\" xml:lang=\""@
        + xml_escape_spec(book.language@)
        + "\">\n  <head>\n    <meta charset=\"utf-8\" />\n    <title>"@ + title
        + "</title>\n    <link rel=\"stylesheet\" type=\"text/css\" href=\"../styles/book.css\" />\n  </head>\n  <body class=\"cover-page\">\n    <section class=\"cover-frame\">\n      <img src=\""@
        + xml_escape_spec("../images/"@ + cover_image) + "\" alt=\""@ + title
        + "\" />\n    </section>\n  </body>\n</html>\n"@
}

pub fn build_cover_xhtml(book: &RenderedBook, cover_image: &str) -> (r: String)
    ensures
        r@ == cover_xhtml_spec(*book, cover_image@),
{
    let title = xml_escape(book.title.as_str());
    let mut src: Vec<char> = chars_of("../images/");
    extend_str(&mut src, cover_image);
    let src_s = string_of(&src);
    let mut v: Vec<char> = Vec::new();
    extend_str(&mut v, "<?xml version=\"1.0\" encoding=\"utf-8\"?>\n<!DOCTYPE html>\n<html xmlns=\"http://www.w3.org/1999/xhtml\" xml:lang=\"");
    extend_str(&mut v, xml_escape(book.language.as_str()).as_str());
    extend_str(&mut v, "\">\n  <head>\n    <meta charset=\"utf-8\" />\n    <title>");
    extend_str(&mut v, title.as_str());
    extend_str(&mut v, "</title>\n    <link rel=\"stylesheet\" type=\"text/css\" href=\"../styles/book.css\" />\n  </head>\n  <body class=\"cover-page\">\n    <section class=\"cover-frame\">\n      <img src=\"");
    extend_str(&mut v, xml_escape(src_s.as_str()).as_str());
    extend_str(&mut v, "\" alt=\"");
    extend_str(&mut v, title.as_str());
    extend_str(&mut v, "\" />\n    </section>\n  </body>\n</html>\n");
    assert(v@ =~= cover_xhtml_spec(*book, cover_image@));
    string_of(&v)
}


// ---------------------------------------------------------------------------
// The package document.
// ---------------------------------------------------------------------------

pub open spec fn chapter_manifest(chapters: Seq<RenderedChapter>) -> Seq<char>
    decreases chapters.len(),
{
    if chapters.len() == 0 {
        seq![]
    } else {
        let c = chapters.last();
        chapter_manifest(chapters.drop_last()) + "    <item id=\""@ + c.id@ + "\" href=\"text/"@ + c.file_name@
            + "\" media-type=\"application/xhtml+xml\"/>\n"@
    }
}

pub open spec fn chapter_spine(chapters: Seq<RenderedChapter>) -> Seq<char>
    decreases chapters.len(),
{
    if chapters.len() == 0 {
        seq![]
    } else {
        chapter_spine(chapters.drop_last()) + "    <itemref idref=\""@ + chapters.last().id@ + "\"/>\n"@
    }
}

/// The spine reference of one chapter.
pub open spec fn chapter_itemref(c: RenderedChapter) -> Seq<char> {
    "    <itemref idref=\""@ + c.id@ + "\"/>\n"@
}

/// The spine follows reading order: the chapters `a` followed by the chapters
/// `b` are referenced as `a`'s references followed by `b`'s, and one chapter by
/// its own reference. So the `k`-th chapter reference names the `k`-th chapter.
pub proof fn lemma_spine_in_reading_order(a: Seq<RenderedChapter>, b: Seq<RenderedChapter>)
    ensures
        chapter_spine(a + b) == chapter_spine(a) + chapter_spine(b),
        b.len() == 1 ==> chapter_spine(b) == chapter_itemref(b[0]),
    decreases b.len(),
{
    if b.len() == 0 {
        assert(a + b =~= a);
        assert(chapter_spine(a) + chapter_spine(b) =~= chapter_spine(a));
    } else {
        let ab = a + b;
        assert(ab.drop_last() =~= a + b.drop_last());
        assert(ab.last() == b.last());
        lemma_spine_in_reading_order(a, b.drop_last());
        assert(chapter_spine(ab) =~= chapter_spine(a) + chapter_spine(b));
        if b.len() == 1 {
            assert(b.drop_last() =~= Seq::<RenderedChapter>::empty());
            assert(chapter_spine(b) =~= chapter_itemref(b[0]));
        }
    }
}

/// The manifest items of the images, numbered from 1; the cover image carries
/// the `cover-image` property.
pub open spec fn image_manifest(images: Seq<ImageAsset>, cover: Option<Seq<char>>) -> Seq<char>
    decreases images.len(),
{
    if images.len() == 0 {
        seq![]
    } else {
        let k = images.len() - 1;
        let img = images.last();
        image_manifest(images.drop_last(), cover) + "    <item id=\"img-"@ + zero_padded((k + 1) as nat, 4)
            + "\" href=\"images/"@ + img.file_name@ + "\" media-type=\""@ + img.media_type@ + "\""@
            + (if cover == Some(img.file_name@) {
            " properties=\"cover-image\""@
        } else {
            seq![]
        }) + "/>\n"@
    }
}

pub open spec fn subject_meta(subjects: Seq<Seq<char>>) -> Seq<char>
    decreases subjects.len(),
{
    if subjects.len() == 0 {
        seq![]
    } else {
        subject_meta(subjects.drop_last()) + "    <dc:subject>"@ + xml_escape_spec(subjects.last())
            + "</dc:subject>\n"@
    }
}

pub open spec fn author_meta(v: Option<Seq<char>>) -> Seq<char> {
    match v {
        Some(x) => "    <dc:creator>"@ + xml_escape_spec(x) + "</dc:creator>\n"@,
        None => seq![],
    }
}

pub open spec fn publisher_meta(v: Option<Seq<char>>) -> Seq<char> {
    match v {
        Some(x) => "    <dc:publisher>"@ + xml_escape_spec(x) + "</dc:publisher>\n"@,
        None => seq![],
    }
}

pub open spec fn description_meta(v: Option<Seq<char>>) -> Seq<char> {
    match v {
        Some(x) => "    <dc:description>"@ + xml_escape_spec(x) + "</dc:description>\n"@,
        None => seq![],
    }
}

/// The package document, last modified at `modified`: metadata, a manifest of
/// navigation, stylesheet, cover page, chapters and images, and a spine of the
/// cover page and the chapters in order.
pub open spec fn content_opf_spec(book: RenderedBook, modified: Seq<char>) -> Seq<char> {
    let cover = opt_view(book.cover_image);
    let manifest = "    <item id=\"nav\" href=\"nav.xhtml\" media-type=\"application/xhtml+xml\" properties=\"nav\"/>\n    <item id=\"css\" href=\"styles/book.css\" media-type=\"text/css\"/>\n"@
        + (if cover is Some {
        "    <item id=\"cover\" href=\"text/cover.xhtml\" media-type=\"application/xhtml+xml\"/>\n"@
    } else {
        seq![]
    }) + chapter_manifest(book.chapters@) + image_manifest(book.images@, cover);
    let spine = (if cover is Some {
        "    <itemref idref=\"cover\"/>\n"@
    } else {
        seq![]
    }) + chapter_spine(book.chapters@);
    "<?xml version=\"1.0\" encoding=\"utf-8\"?>\n<package xmlns=\"http://www.idpf.org/2007/opf\" unique-identifier=\"bookid\" version=\"3.0\">\n  <metadata xmlns:dc=\"http://purl.org/dc/elements/1.1/\">\n    <dc:identifier id=\"bookid\">urn:sha256:"@
        + xml_escape_spec(book.source_hash@) + "</dc:identifier>\n    <dc:title>"@
        + xml_escape_spec(book.title@) + "</dc:title>\n"@ + author_meta(opt_view(book.author))
        + "    <dc:language>"@ + xml_escape_spec(book.language@) + "</dc:language>\n"@
        + publisher_meta(opt_view(book.publisher)) + description_meta(opt_view(book.description))
        + subject_meta(strings_view(book.subjects@)) + "    <meta property=\"dcterms:modified\">"@
        + modified + "</meta>\n"@ + "  </metadata>\n  <manifest>\n"@ + manifest
        + "  </manifest>\n  <spine>\n"@ + spine + "  </spine>\n</package>\n"@
}

/// The chapters are listed in the manifest in reading order too: those of
/// `a` followed by those of `b`.
pub proof fn lemma_manifest_in_reading_order(a: Seq<RenderedChapter>, b: Seq<RenderedChapter>)
    ensures
        chapter_manifest(a + b) == chapter_manifest(a) + chapter_manifest(b),
    decreases b.len(),
{
    if b.len() == 0 {
        assert(a + b =~= a);
        assert(chapter_manifest(a) + chapter_manifest(b) =~= chapter_manifest(a));
    } else {
        let ab = a + b;
        assert(ab.drop_last() =~= a + b.drop_last());
        assert(ab.last() == b.last());
        lemma_manifest_in_reading_order(a, b.drop_last());
        assert(chapter_manifest(ab) =~= chapter_manifest(a) + chapter_manifest(b));
    }
}

/// The package document ends with its spine, right after the manifest: the
/// cover page first when there is a cover, then the chapters' references.
pub proof fn lemma_package_ends_with_spine(book: RenderedBook, modified: Seq<char>)
    ensures
        ({
            let doc = content_opf_spec(book, modified);
            let tail = "  </manifest>\n  <spine>\n"@ + (if book.cover_image is Some {
                "    <itemref idref=\"cover\"/>\n"@
            } else {
                seq![]
            }) + chapter_spine(book.chapters@) + "  </spine>\n</package>\n"@;
            doc.len() >= tail.len() && doc.subrange(doc.len() - tail.len(), doc.len() as int) == tail
        }),
{
    let doc = content_opf_spec(book, modified);
    let spine = (if opt_view(book.cover_image) is Some {
        "    <itemref idref=\"cover\"/>\n"@
    } else {
        seq![]
    }) + chapter_spine(book.chapters@);
    let tail = "  </manifest>\n  <spine>\n"@ + spine + "  </spine>\n</package>\n"@;
    assert(doc.subrange(doc.len() - tail.len(), doc.len() as int) =~= tail);
}

fn push_escaped_meta(v: &mut Vec<char>, open: &str, value: &Option<String>, close: &str)
    ensures
        final(v)@ == old(v)@ + (match opt_view(*value) {
            Some(x) => open@ + xml_escape_spec(x) + close@,
            None => seq![],
        }),
{
    match value {
        Some(x) => {
            extend_str(v, open);
            extend_str(v, xml_escape(x.as_str()).as_str());
            extend_str(v, close);
            assert(v@ =~= old(v)@ + (open@ + xml_escape_spec(x@) + close@));
        },
        None => {
            assert(v@ =~= old(v)@ + Seq::<char>::empty());
        },
    }
}

fn same_name(cover: &Option<String>, name: &String) -> (r: bool)
    ensures
        r == (opt_view(*cover) == Some(name@)),
{
    match cover {
        Some(c) => crate::text::chars_eq_str(&chars_of(c.as_str()), name.as_str()),
        None => false,
    }
}

/// The package document with the given last-modified time.
pub fn content_opf_with_modified(book: &RenderedBook, modified: &str) -> (r: String)
    ensures
        r@ == content_opf_spec(*book, modified@),
{
    let ghost cover = opt_view(book.cover_image);
    let mut manifest: Vec<char> = chars_of("    <item id=\"nav\" href=\"nav.xhtml\" media-type=\"application/xhtml+xml\" properties=\"nav\"/>\n    <item id=\"css\" href=\"styles/book.css\" media-type=\"text/css\"/>\n");
    let mut spine: Vec<char> = Vec::new();
    if book.cover_image.is_some() {
        extend_str(&mut manifest, "    <item id=\"cover\" href=\"text/cover.xhtml\" media-type=\"application/xhtml+xml\"/>\n");
        extend_str(&mut spine, "    <itemref idref=\"cover\"/>\n");
    }
    let ghost m0 = manifest@;
    let ghost s0 = spine@;
    let mut i: usize = 0;
    while i < book.chapters.len()
        invariant
            i <= book.chapters.len(),
            manifest@ == m0 + chapter_manifest(book.chapters@.take(i as int)),
            spine@ == s0 + chapter_spine(book.chapters@.take(i as int)),
        decreases book.chapters.len() - i,
    {
        let c = &book.chapters[i];
        extend_str(&mut manifest, "    <item id=\"");
        extend_str(&mut manifest, c.id.as_str());
        extend_str(&mut manifest, "\" href=\"text/");
        extend_str(&mut manifest, c.file_name.as_str());
        extend_str(&mut manifest, "\" media-type=\"application/xhtml+xml\"/>\n");
        extend_str(&mut spine, "    <itemref idref=\"");
        extend_str(&mut spine, c.id.as_str());
        extend_str(&mut spine, "\"/>\n");
        assert(book.chapters@.take(i as int + 1).drop_last() == book.chapters@.take(i as int));
        assert(manifest@ =~= m0 + chapter_manifest(book.chapters@.take(i as int + 1)));
        assert(spine@ =~= s0 + chapter_spine(book.chapters@.take(i as int + 1)));
        i += 1;
    }
    assert(book.chapters@.take(book.chapters.len() as int) == book.chapters@);
    let ghost m1 = manifest@;
    let mut k: usize = 0;
    while k < book.images.len()
        invariant
            k <= book.images.len(),
            cover == opt_view(book.cover_image),
            manifest@ == m1 + image_manifest(book.images@.take(k as int), cover),
        decreases book.images.len() - k,
    {
        let img = &book.images[k];
        extend_str(&mut manifest, "    <item id=\"img-");
        extend_chars(&mut manifest, &zero_padded_exec((k + 1) as u64, 4));
        extend_str(&mut manifest, "\" href=\"images/");
        extend_str(&mut manifest, img.file_name.as_str());
        extend_str(&mut manifest, "\" media-type=\"");
        extend_str(&mut manifest, img.media_type.as_str());
        extend_str(&mut manifest, "\"");
        if same_name(&book.cover_image, &img.file_name) {
            extend_str(&mut manifest, " properties=\"cover-image\"");
        }
        extend_str(&mut manifest, "/>\n");
        assert(book.images@.take(k as int + 1).drop_last() == book.images@.take(k as int));
        assert(manifest@ =~= m1 + image_manifest(book.images@.take(k as int + 1), cover));
        k += 1;
    }
    assert(book.images@.take(book.images.len() as int) == book.images@);
    let mut subjects: Vec<char> = Vec::new();
    let ghost sv = strings_view(book.subjects@);
    let mut j: usize = 0;
    while j < book.subjects.len()
        invariant
            j <= book.subjects.len(),
            sv == strings_view(book.subjects@),
            subjects@ == subject_meta(sv.take(j as int)),
        decreases book.subjects.len() - j,
    {
        extend_str(&mut subjects, "    <dc:subject>");
        extend_str(&mut subjects, xml_escape(book.subjects[j].as_str()).as_str());
        extend_str(&mut subjects, "</dc:subject>\n");
        assert(sv.take(j as int + 1).drop_last() == sv.take(j as int));
        assert(sv.take(j as int + 1).last() == book.subjects@[j as int]@);
        j += 1;
    }
    assert(sv.take(book.subjects.len() as int) == sv);
    let mut v: Vec<char> = chars_of("<?xml version=\"1.0\" encoding=\"utf-8\"?>\n<package xmlns=\"http://www.idpf.org/2007/opf\" unique-identifier=\"bookid\" version=\"3.0\">\n  <metadata xmlns:dc=\"http://purl.org/dc/elements/1.1/\">\n    <dc:identifier id=\"bookid\">urn:sha256:");
    extend_str(&mut v, xml_escape(book.source_hash.as_str()).as_str());
    extend_str(&mut v, "</dc:identifier>\n    <dc:title>");
    extend_str(&mut v, xml_escape(book.title.as_str()).as_str());
    extend_str(&mut v, "</dc:title>\n");
    push_escaped_meta(&mut v, "    <dc:creator>", &book.author, "</dc:creator>\n");
    extend_str(&mut v, "    <dc:language>");
    extend_str(&mut v, xml_escape(book.language.as_str()).as_str());
    extend_str(&mut v, "</dc:language>\n");
    push_escaped_meta(&mut v, "    <dc:publisher>", &book.publisher, "</dc:publisher>\n");
    push_escaped_meta(&mut v, "    <dc:description>", &book.description, "</dc:description>\n");
    extend_chars(&mut v, &subjects);
    extend_str(&mut v, "    <meta property=\"dcterms:modified\">");
    extend_str(&mut v, modified);
    extend_str(&mut v, "</meta>\n");
    extend_str(&mut v, "  </metadata>\n  <manifest>\n");
    extend_chars(&mut v, &manifest);
    extend_str(&mut v, "  </manifest>\n  <spine>\n");
    extend_chars(&mut v, &spine);
    extend_str(&mut v, "  </spine>\n</package>\n");
    assert(v@ =~= content_opf_spec(*book, modified@));
    string_of(&v)
}

/// A calendar date and time of day: year, month, day, hour, minute, second.
pub type DateTimeFields = (i32, u32, u32, u32, u32, u32);

/// Fields in their calendar ranges.
pub open spec fn valid_fields(t: DateTimeFields) -> bool {
    &&& 1 <= t.1 <= 12
    &&& 1 <= t.2 <= 31
    &&& t.3 <= 23
    &&& t.4 <= 59
    &&& t.5 <= 59
}

/// Reads the current UTC time with `chrono::Utc::now` and takes its calendar
/// fields with `Datelike::year`, `month`, `day` and `Timelike::hour`, `minute`,
/// `second`. What it states is the ranges chrono documents for them; which
/// time it is, is not stated.
#[verifier::external_body]
fn utc_now_fields() -> (r: DateTimeFields)
    ensures
        valid_fields(r),
{
    let now = chrono::Utc::now();
    (
        chrono::Datelike::year(&now),
        chrono::Datelike::month(&now),
        chrono::Datelike::day(&now),
        chrono::Timelike::hour(&now),
        chrono::Timelike::minute(&now),
        chrono::Timelike::second(&now),
    )
}

/// The year as `%Y` writes it: four digits, zero-padded, for years 0 to 9999;
/// otherwise with a sign.
pub open spec fn year_text(y: int) -> Seq<char> {
    if 0 <= y <= 9999 {
        zero_padded(y as nat, 4)
    } else if y < 0 {
        seq!['-'] + zero_padded((-y) as nat, 4)
    } else {
        seq!['+'] + zero_padded(y as nat, 4)
    }
}

/// The time as `%Y-%m-%dT%H:%M:%SZ`, an `xsd:dateTime` in UTC with whole seconds.
pub open spec fn timestamp_text(t: DateTimeFields) -> Seq<char> {
    year_text(t.0 as int) + "-"@ + zero_padded(t.1 as nat, 2) + "-"@ + zero_padded(t.2 as nat, 2) + "T"@
        + zero_padded(t.3 as nat, 2) + ":"@ + zero_padded(t.4 as nat, 2) + ":"@ + zero_padded(t.5 as nat, 2)
        + "Z"@
}

proof fn lemma_decimal_digits(n: nat)
    ensures
        decimal(n).len() >= 1,
        n < 10 ==> decimal(n).len() == 1,
        n < 100 ==> decimal(n).len() <= 2,
        n < 1000 ==> decimal(n).len() <= 3,
        n < 10000 ==> decimal(n).len() <= 4,
        forall|i: int| 0 <= i < decimal(n).len() ==> is_ascii_digit(#[trigger] decimal(n)[i]),
    decreases n,
{
    if n >= 10 {
        lemma_decimal_digits(n / 10);
        assert(is_ascii_digit(digit_char(n % 10)));
        assert forall|i: int| 0 <= i < decimal(n).len() implies is_ascii_digit(#[trigger] decimal(n)[i]) by {
            if i < decimal(n / 10).len() {
                assert(decimal(n)[i] == decimal(n / 10)[i]);
            }
        }
    } else {
        assert(is_ascii_digit(digit_char(n)));
    }
}

proof fn lemma_padded_digits(n: nat, w: nat)
    requires
        decimal(n).len() <= w,
    ensures
        zero_padded(n, w).len() == w,
        forall|i: int| 0 <= i < w ==> is_ascii_digit(#[trigger] zero_padded(n, w)[i]),
{
    lemma_decimal_digits(n);
    let d = decimal(n);
    if d.len() < w {
        let pad = Seq::new((w - d.len()) as nat, |i: int| '0');
        assert forall|i: int| 0 <= i < w implies is_ascii_digit(#[trigger] zero_padded(n, w)[i]) by {
            if i >= pad.len() {
                assert(zero_padded(n, w)[i] == d[i - pad.len()]);
            }
        }
    }
}

/// For years 0 to 9999 the stamp is the 20 characters `YYYY-MM-DDTHH:MM:SSZ`:
/// digits, with `-`, `T`, `:` and `Z` in their places.
pub proof fn lemma_timestamp_shape(t: DateTimeFields)
    requires
        valid_fields(t),
        0 <= t.0 <= 9999,
    ensures
        ({
            let s = timestamp_text(t);
            &&& s.len() == 20
            &&& s[4] == '-' && s[7] == '-' && s[10] == 'T' && s[13] == ':' && s[16] == ':' && s[19] == 'Z'
            &&& forall|i: int| 0 <= i < 20 && i != 4 && i != 7 && i != 10 && i != 13 && i != 16 && i != 19
                ==> is_ascii_digit(#[trigger] s[i])
        }),
{
    reveal_strlit("-");
    reveal_strlit("T");
    reveal_strlit(":");
    reveal_strlit("Z");
    lemma_decimal_digits(t.0 as nat);
    lemma_decimal_digits(t.1 as nat);
    lemma_decimal_digits(t.2 as nat);
    lemma_decimal_digits(t.3 as nat);
    lemma_decimal_digits(t.4 as nat);
    lemma_decimal_digits(t.5 as nat);
    lemma_padded_digits(t.0 as nat, 4);
    lemma_padded_digits(t.1 as nat, 2);
    lemma_padded_digits(t.2 as nat, 2);
    lemma_padded_digits(t.3 as nat, 2);
    lemma_padded_digits(t.4 as nat, 2);
    lemma_padded_digits(t.5 as nat, 2);
    let y = zero_padded(t.0 as nat, 4);
    let mo = zero_padded(t.1 as nat, 2);
    let d = zero_padded(t.2 as nat, 2);
    let h = zero_padded(t.3 as nat, 2);
    let mi = zero_padded(t.4 as nat, 2);
    let se = zero_padded(t.5 as nat, 2);
    let s = timestamp_text(t);
    assert(s =~= y + seq!['-'] + mo + seq!['-'] + d + seq!['T'] + h + seq![':'] + mi + seq![':'] + se + seq!['Z']);
    assert forall|i: int| 0 <= i < 20 && i != 4 && i != 7 && i != 10 && i != 13 && i != 16 && i != 19
        implies is_ascii_digit(#[trigger] s[i]) by {
        if i < 4 {
            assert(s[i] == y[i]);
        } else if i < 7 {
            assert(s[i] == mo[i - 5]);
        } else if i < 10 {
            assert(s[i] == d[i - 8]);
        } else if i < 13 {
            assert(s[i] == h[i - 11]);
        } else if i < 16 {
            assert(s[i] == mi[i - 14]);
        } else {
            assert(s[i] == se[i - 17]);
        }
    }
}

fn push_padded(v: &mut Vec<char>, n: u32)
    ensures
        final(v)@ == old(v)@ + zero_padded(n as nat, 2),
{
    let d = zero_padded_exec(n as u64, 2);
    extend_chars(v, &d);
}

fn format_timestamp(t: DateTimeFields) -> (r: String)
    ensures
        r@ == timestamp_text(t),
{
    let mut v: Vec<char> = Vec::new();
    if 0 <= t.0 && t.0 <= 9999 {
        extend_chars(&mut v, &zero_padded_exec(t.0 as u64, 4));
    } else if t.0 < 0 {
        v.push('-');
        let magnitude: u64 = (0i64 - t.0 as i64) as u64;
        extend_chars(&mut v, &zero_padded_exec(magnitude, 4));
    } else {
        v.push('+');
        extend_chars(&mut v, &zero_padded_exec(t.0 as u64, 4));
    }
    assert(v@ =~= year_text(t.0 as int));
    extend_str(&mut v, "-");
    push_padded(&mut v, t.1);
    extend_str(&mut v, "-");
    push_padded(&mut v, t.2);
    extend_str(&mut v, "T");
    push_padded(&mut v, t.3);
    extend_str(&mut v, ":");
    push_padded(&mut v, t.4);
    extend_str(&mut v, ":");
    push_padded(&mut v, t.5);
    extend_str(&mut v, "Z");
    assert(v@ =~= timestamp_text(t));
    string_of(&v)
}

/// The current UTC time as an `xsd:dateTime` with whole seconds.
fn current_utc_timestamp() -> (r: String)
    ensures
        exists|t: DateTimeFields| #![trigger timestamp_text(t)] valid_fields(t) && r@ == timestamp_text(t),
{
    let t = utc_now_fields();
    let r = format_timestamp(t);
    assert(valid_fields(t) && r@ == timestamp_text(t));
    r
}

/// The package document, last modified now.
pub fn build_content_opf(book: &RenderedBook) -> (r: String)
    ensures
        exists|t: DateTimeFields| #![trigger timestamp_text(t)]
            valid_fields(t) && r@ == content_opf_spec(*book, timestamp_text(t)),
{
    let stamp = current_utc_timestamp();
    let ghost t = choose|t: DateTimeFields| #![trigger timestamp_text(t)] valid_fields(t) && stamp@ == timestamp_text(t);
    let r = content_opf_with_modified(book, stamp.as_str());
    assert(valid_fields(t) && r@ == content_opf_spec(*book, timestamp_text(t)));
    r
}


// ---------------------------------------------------------------------------
// The archive.
// ---------------------------------------------------------------------------

/// What an archive entry holds: text, or the bytes of one of the book's images.
pub enum EntryContent {
    Text(String),
    Image(usize),
}

/// One entry of the EPUB archive, stored as is or deflated.
pub struct EpubEntry {
    pub path: String,
    pub stored: bool,
    pub content: EntryContent,
}

pub enum ContentView {
    Text(Seq<char>),
    Image(usize),
}

pub open spec fn entry_view(e: EpubEntry) -> (Seq<char>, bool, ContentView) {
    (e.path@, e.stored, match e.content {
        EntryContent::Text(t) => ContentView::Text(t@),
        EntryContent::Image(i) => ContentView::Image(i),
    })
}

pub open spec fn chapter_entries(chapters: Seq<RenderedChapter>) -> Seq<(Seq<char>, bool, ContentView)> {
    chapters.map_values(|c: RenderedChapter| ("OEBPS/text/"@ + c.file_name@, false, ContentView::Text(c.xhtml@)))
}

pub open spec fn image_entries(images: Seq<ImageAsset>) -> Seq<(Seq<char>, bool, ContentView)> {
    Seq::new(images.len(), |k: int| ("OEBPS/images/"@ + images[k].file_name@, false, ContentView::Image(k as usize)))
}

/// The entries of the EPUB archive in the order they are written: the stored
/// `mimetype` first, then container, stylesheet, navigation and package
/// document (last modified at `modified`), the cover page when there is a
/// cover, the chapters and the images, all deflated.
pub open spec fn epub_entries_spec(book: RenderedBook, modified: Seq<char>) -> Seq<(Seq<char>, bool, ContentView)> {
    seq![
        ("mimetype"@, true, ContentView::Text("application/epub+zip"@)),
        ("META-INF/container.xml"@, false, ContentView::Text(container_xml_spec())),
        ("OEBPS/styles/book.css"@, false, ContentView::Text(book_css_spec())),
        ("OEBPS/nav.xhtml"@, false, ContentView::Text(nav_xhtml_spec(book))),
        ("OEBPS/content.opf"@, false, ContentView::Text(content_opf_spec(book, modified))),
    ] + (match opt_view(book.cover_image) {
        Some(c) => seq![("OEBPS/text/cover.xhtml"@, false, ContentView::Text(cover_xhtml_spec(book, c)))],
        None => seq![],
    }) + chapter_entries(book.chapters@) + image_entries(book.images@)
}

fn text_entry(path: &str, stored: bool, text: String) -> (e: EpubEntry)
    ensures
        entry_view(e) == (path@, stored, ContentView::Text(text@)),
{
    EpubEntry { path: string_of(&chars_of(path)), stored, content: EntryContent::Text(text) }
}

/// The entries of the EPUB archive for a book, last modified now.
pub fn epub_entries(book: &RenderedBook) -> (r: Vec<EpubEntry>)
    ensures
        exists|t: DateTimeFields| #![trigger timestamp_text(t)]
            valid_fields(t) && r@.map_values(|e: EpubEntry| entry_view(e)) == epub_entries_spec(*book, timestamp_text(t)),
{
    let stamp = current_utc_timestamp();
    let ghost t = choose|t: DateTimeFields| #![trigger timestamp_text(t)] valid_fields(t) && stamp@ == timestamp_text(t);
    let ghost modified = stamp@;
    let mut r: Vec<EpubEntry> = Vec::new();
    r.push(text_entry("mimetype", true, string_of(&chars_of("application/epub+zip"))));
    r.push(text_entry("META-INF/container.xml", false, string_of(&chars_of(container_xml()))));
    r.push(text_entry("OEBPS/styles/book.css", false, string_of(&chars_of(book_css()))));
    r.push(text_entry("OEBPS/nav.xhtml", false, build_nav_xhtml(book)));
    r.push(text_entry("OEBPS/content.opf", false, content_opf_with_modified(book, stamp.as_str())));
    if let Some(cover) = &book.cover_image {
        r.push(text_entry("OEBPS/text/cover.xhtml", false, build_cover_xhtml(book, cover.as_str())));
    }
    let ghost head = r@.map_values(|e: EpubEntry| entry_view(e));
    let mut i: usize = 0;
    while i < book.chapters.len()
        invariant
            i <= book.chapters.len(),
            r@.map_values(|e: EpubEntry| entry_view(e)) == head + chapter_entries(book.chapters@.take(i as int)),
        decreases book.chapters.len() - i,
    {
        let c = &book.chapters[i];
        let mut p: Vec<char> = chars_of("OEBPS/text/");
        extend_str(&mut p, c.file_name.as_str());
        let ghost old_r = r@;
        let x = c.xhtml.clone();
        let e = EpubEntry { path: string_of(&p), stored: false, content: EntryContent::Text(x) };
        assert(entry_view(e) == ("OEBPS/text/"@ + c.file_name@, false, ContentView::Text(c.xhtml@)));
        r.push(e);
        assert(r@.map_values(|e: EpubEntry| entry_view(e)) =~= old_r.map_values(|e: EpubEntry| entry_view(e)).push(entry_view(e)));
        assert(chapter_entries(book.chapters@.take(i as int + 1)) =~= chapter_entries(book.chapters@.take(i as int)).push(entry_view(e)));
        assert(r@.map_values(|e: EpubEntry| entry_view(e)) =~= head + chapter_entries(book.chapters@.take(i as int + 1)));
        i += 1;
    }
    assert(book.chapters@.take(book.chapters.len() as int) == book.chapters@);
    let ghost mid = r@.map_values(|e: EpubEntry| entry_view(e));
    let mut k: usize = 0;
    while k < book.images.len()
        invariant
            k <= book.images.len(),
            r@.map_values(|e: EpubEntry| entry_view(e)) == mid + image_entries(book.images@.take(k as int)),
        decreases book.images.len() - k,
    {
        let mut p: Vec<char> = chars_of("OEBPS/images/");
        extend_str(&mut p, book.images[k].file_name.as_str());
        let ghost old_r = r@;
        let e = EpubEntry { path: string_of(&p), stored: false, content: EntryContent::Image(k) };
        r.push(e);
        assert(r@.map_values(|e: EpubEntry| entry_view(e)) =~= old_r.map_values(|e: EpubEntry| entry_view(e)).push(entry_view(e)));
        assert(image_entries(book.images@.take(k as int + 1)) =~= image_entries(book.images@.take(k as int)).push(entry_view(e)));
        assert(r@.map_values(|e: EpubEntry| entry_view(e)) =~= mid + image_entries(book.images@.take(k as int + 1)));
        k += 1;
    }
    assert(book.images@.take(book.images.len() as int) == book.images@);
    assert(r@.map_values(|e: EpubEntry| entry_view(e)) =~= epub_entries_spec(*book, modified));
    r
}

} // verus!
