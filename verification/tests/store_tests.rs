use std::io::Cursor;
use std::io::Write;
use zip::write::SimpleFileOptions;
use zip::{CompressionMethod, ZipWriter};
use catatau::{EpubError, EpubReader};

struct Entry<'a> {
    name: &'a str,
    body: &'a [u8],
}

fn build_epub(opf: &str, entries: &[Entry]) -> Vec<u8> {
    let mut zip = ZipWriter::new(Cursor::new(Vec::new()));
    zip.start_file(
        "mimetype",
        SimpleFileOptions::default().compression_method(CompressionMethod::Stored),
    )
    .unwrap();
    zip.write_all(b"application/epub+zip").unwrap();
    zip.start_file("META-INF/container.xml", SimpleFileOptions::default()).unwrap();
    zip.write_all(
        br#"<?xml version="1.0" encoding="UTF-8"?>
<container version="1.0" xmlns="urn:oasis:names:tc:opendocument:xmlns:container">
  <rootfiles>
    <rootfile full-path="content.opf" media-type="application/oebps-package+xml"/>
  </rootfiles>
</container>"#,
    )
    .unwrap();
    zip.start_file("content.opf", SimpleFileOptions::default()).unwrap();
    zip.write_all(opf.as_bytes()).unwrap();
    for e in entries {
        zip.start_file(e.name, SimpleFileOptions::default()).unwrap();
        zip.write_all(e.body).unwrap();
    }
    zip.finish().unwrap().into_inner()
}

fn many_chapter_opf(n: usize) -> String {
    let mut items = String::new();
    let mut refs = String::new();
    for i in 0..n {
        items.push_str(&format!(
            "<item id=\"c{}\" href=\"ch{}.xhtml\" media-type=\"application/xhtml+xml\"/>",
            i, i
        ));
        refs.push_str(&format!("<itemref idref=\"c{}\"/>", i));
    }
    format!(
        "<?xml version=\"1.0\"?><package><metadata xmlns:dc=\"x\"><dc:title>Many</dc:title></metadata><manifest>{}</manifest><spine>{}</spine></package>",
        items, refs
    )
}

fn chapter_body(i: usize) -> String {
    format!(
        "<html><head><title>Part {}</title></head><body><p>Chapter number {} has its own words, \
         repeated enough to pass the minimum content length checks easily.</p></body></html>",
        i, i
    )
}

#[test]
fn test_cache_eviction_reextracts_identically() {
    let bodies: Vec<String> = (0..6).map(chapter_body).collect();
    let names: Vec<String> = (0..6).map(|i| format!("ch{}.xhtml", i)).collect();
    let entries: Vec<Entry> = (0..6)
        .map(|i| Entry { name: &names[i], body: bodies[i].as_bytes() })
        .collect();
    let bytes = build_epub(&many_chapter_opf(6), &entries);
    let mut epub = EpubReader::new(bytes).expect("Failed to parse test EPUB");
    assert_eq!(epub.chapter_count(), 6);

    let first = epub.get_chapter(0).expect("chapter 0");
    for i in 1..6 {
        epub.get_chapter(i).expect("later chapter");
    }
    // The cache holds five sections, so section 0 was evicted and is
    // re-extracted here; the text must come back byte-identical.
    let again = epub.get_chapter(0).expect("chapter 0 again");
    assert_eq!(first.content, again.content);
    assert_eq!(first.title, again.title);
}

#[test]
fn test_search_position_round_trip() {
    let bodies: Vec<String> = (0..3).map(chapter_body).collect();
    let names: Vec<String> = (0..3).map(|i| format!("ch{}.xhtml", i)).collect();
    let entries: Vec<Entry> = (0..3)
        .map(|i| Entry { name: &names[i], body: bodies[i].as_bytes() })
        .collect();
    let bytes = build_epub(&many_chapter_opf(3), &entries);
    let mut epub = EpubReader::new(bytes).expect("Failed to parse test EPUB");

    let results = epub.search("own words");
    assert_eq!(results.len(), 3);
    for m in &results {
        let chapter = epub.get_chapter(m.chapter_index).expect("matched chapter");
        let lines: Vec<&str> = chapter.content.split('\n').collect();
        let line = lines[m.line_number];
        // The reported byte offset indexes the section's text at the start
        // of the reported line.
        assert_eq!(&chapter.content[m.position..m.position + line.len()], line);
    }
}

#[test]
fn test_search_position_is_byte_offset() {
    // Accented text: the byte offset counts multi-byte characters at their
    // encoded width, so slicing the text at it still lands on the line.
    let body = "<html><body><p>Le caf\u{e9} pr\u{e8}s du mus\u{e9}e ouvre t\u{f4}t.</p>\
                <p>La cr\u{e8}me br\u{fb}l\u{e9}e du chef est c\u{e9}l\u{e8}bre ici.</p>\
                <p>On y parle fran\u{e7}ais toute la journ\u{e9}e enti\u{e8}re.</p></body></html>";
    let opf = "<?xml version=\"1.0\"?><package><manifest>\
               <item id=\"c0\" href=\"ch0.xhtml\" media-type=\"application/xhtml+xml\"/>\
               </manifest><spine><itemref idref=\"c0\"/></spine></package>";
    let bytes = build_epub(opf, &[Entry { name: "ch0.xhtml", body: body.as_bytes() }]);
    let mut epub = EpubReader::new(bytes).expect("Failed to parse test EPUB");
    assert_eq!(epub.chapter_count(), 1);

    let results = epub.search("br\u{fb}l\u{e9}e");
    assert_eq!(results.len(), 1);
    let m = &results[0];
    let chapter = epub.get_chapter(0).expect("chapter 0");
    let lines: Vec<&str> = chapter.content.split('\n').collect();
    let line = lines[m.line_number];
    assert_eq!(&chapter.content[m.position..m.position + line.len()], line);
}

#[test]
fn test_search_results_ordered() {
    let bodies: Vec<String> = (0..4).map(chapter_body).collect();
    let names: Vec<String> = (0..4).map(|i| format!("ch{}.xhtml", i)).collect();
    let entries: Vec<Entry> = (0..4)
        .map(|i| Entry { name: &names[i], body: bodies[i].as_bytes() })
        .collect();
    let bytes = build_epub(&many_chapter_opf(4), &entries);
    let mut epub = EpubReader::new(bytes).expect("Failed to parse test EPUB");

    let results = epub.search("chapter number");
    assert_eq!(results.len(), 4);
    for (i, m) in results.iter().enumerate() {
        assert_eq!(m.chapter_index, i);
    }
}

#[test]
fn test_title_from_first_line() {
    let body = b"<html><body><p>A Heading Line</p><p>The body below the heading carries \
                 plenty of text so the section is kept.</p></body></html>";
    let opf = "<?xml version=\"1.0\"?><package><manifest>\
               <item id=\"c0\" href=\"ch0.xhtml\" media-type=\"application/xhtml+xml\"/>\
               </manifest><spine><itemref idref=\"c0\"/></spine></package>";
    let bytes = build_epub(opf, &[Entry { name: "ch0.xhtml", body }]);
    let mut epub = EpubReader::new(bytes).expect("Failed to parse test EPUB");
    assert_eq!(epub.chapter_count(), 1);
    let chapter = epub.get_chapter(0).expect("chapter 0");
    assert_eq!(chapter.title, "A Heading Line");
}

#[test]
fn test_title_fallback_literal() {
    let body = b"<html><body><p>This is a plain paragraph of about sixty characters total here.</p></body></html>";
    let opf = "<?xml version=\"1.0\"?><package><manifest>\
               <item id=\"c0\" href=\"ch0.xhtml\" media-type=\"application/xhtml+xml\"/>\
               </manifest><spine><itemref idref=\"c0\"/></spine></package>";
    let bytes = build_epub(opf, &[Entry { name: "ch0.xhtml", body }]);
    let mut epub = EpubReader::new(bytes).expect("Failed to parse test EPUB");
    assert_eq!(epub.chapter_count(), 1);
    // No title element and a first line ending in a period: the literal
    // fallback names the section by its 1-based position.
    let chapter = epub.get_chapter(0).expect("chapter 0");
    assert_eq!(chapter.title, "Section 1");
}

#[test]
fn test_metadata_unescaped() {
    let body = chapter_body(0);
    let opf = "<?xml version=\"1.0\"?><package><metadata xmlns:dc=\"x\">\
               <dc:title>Tom &amp; Jerry</dc:title><dc:creator>A &lt;B&gt;</dc:creator>\
               </metadata><manifest>\
               <item id=\"c0\" href=\"ch0.xhtml\" media-type=\"application/xhtml+xml\"/>\
               </manifest><spine><itemref idref=\"c0\"/></spine></package>";
    let bytes = build_epub(opf, &[Entry { name: "ch0.xhtml", body: body.as_bytes() }]);
    let epub = EpubReader::new(bytes).expect("Failed to parse test EPUB");
    assert_eq!(epub.title, "Tom & Jerry");
    assert_eq!(epub.author, "A <B>");
}

#[test]
fn test_first_metadata_occurrence_wins() {
    let body = chapter_body(0);
    let opf = "<?xml version=\"1.0\"?><package><metadata xmlns:dc=\"x\">\
               <dc:title>First Title</dc:title><dc:title>Second Title</dc:title>\
               </metadata><manifest>\
               <item id=\"c0\" href=\"ch0.xhtml\" media-type=\"application/xhtml+xml\"/>\
               </manifest><spine><itemref idref=\"c0\"/></spine></package>";
    let bytes = build_epub(opf, &[Entry { name: "ch0.xhtml", body: body.as_bytes() }]);
    let epub = EpubReader::new(bytes).expect("Failed to parse test EPUB");
    assert_eq!(epub.title, "First Title");
}

#[test]
fn test_short_sections_dropped() {
    let long_body = chapter_body(0);
    let short_body = b"<html><body><p>tiny</p></body></html>";
    let opf = "<?xml version=\"1.0\"?><package><manifest>\
               <item id=\"c0\" href=\"ch0.xhtml\" media-type=\"application/xhtml+xml\"/>\
               <item id=\"c1\" href=\"ch1.xhtml\" media-type=\"application/xhtml+xml\"/>\
               </manifest><spine><itemref idref=\"c0\"/><itemref idref=\"c1\"/></spine></package>";
    let bytes = build_epub(
        opf,
        &[
            Entry { name: "ch0.xhtml", body: long_body.as_bytes() },
            Entry { name: "ch1.xhtml", body: short_body },
        ],
    );
    let epub = EpubReader::new(bytes).expect("Failed to parse test EPUB");
    // Only the section whose trimmed text reaches the minimum length is
    // counted.
    assert_eq!(epub.chapter_count(), 1);
}

#[test]
fn test_overinflated_entry_skipped() {
    // An entry that expands far beyond its compressed size is treated as
    // hostile and dropped at load time.
    let mut inflated = String::from("<html><body><p>");
    for _ in 0..200000 {
        inflated.push_str("zeros zeros ");
    }
    inflated.push_str("</p></body></html>");
    let normal = chapter_body(0);
    let opf = "<?xml version=\"1.0\"?><package><manifest>\
               <item id=\"c0\" href=\"ch0.xhtml\" media-type=\"application/xhtml+xml\"/>\
               <item id=\"c1\" href=\"ch1.xhtml\" media-type=\"application/xhtml+xml\"/>\
               </manifest><spine><itemref idref=\"c0\"/><itemref idref=\"c1\"/></spine></package>";
    let bytes = build_epub(
        opf,
        &[
            Entry { name: "ch0.xhtml", body: normal.as_bytes() },
            Entry { name: "ch1.xhtml", body: inflated.as_bytes() },
        ],
    );
    let epub = EpubReader::new(bytes).expect("Failed to parse test EPUB");
    assert_eq!(epub.chapter_count(), 1);
}

#[test]
fn test_file_too_large() {
    let bytes = vec![0u8; 100 * 1024 * 1024 + 1];
    let result = EpubReader::new(bytes);
    match result.unwrap_err() {
        EpubError::FileTooLarge { size, max } => {
            assert_eq!(size, 100 * 1024 * 1024 + 1);
            assert_eq!(max, 100 * 1024 * 1024);
        }
        other => panic!("Expected FileTooLarge, got: {:?}", other),
    }
}

#[test]
fn test_not_an_archive() {
    let result = EpubReader::new(b"this is not an archive at all".to_vec());
    match result.unwrap_err() {
        EpubError::Zip(_) => {}
        other => panic!("Expected Zip, got: {:?}", other),
    }
}

#[test]
fn test_malformed_container_markup() {
    let mut zip = ZipWriter::new(Cursor::new(Vec::new()));
    zip.start_file("META-INF/container.xml", SimpleFileOptions::default()).unwrap();
    zip.write_all(b"<rootfiles><rootfile full-path=").unwrap();
    let bytes = zip.finish().unwrap().into_inner();
    let result = EpubReader::new(bytes);
    match result.unwrap_err() {
        EpubError::Xml(_) => {}
        other => panic!("Expected Xml, got: {:?}", other),
    }
}

#[test]
fn test_container_not_text() {
    let mut zip = ZipWriter::new(Cursor::new(Vec::new()));
    zip.start_file("META-INF/container.xml", SimpleFileOptions::default()).unwrap();
    zip.write_all(&[0xff, 0xfe, 0x00, 0x81, 0xff]).unwrap();
    let bytes = zip.finish().unwrap().into_inner();
    let result = EpubReader::new(bytes);
    match result.unwrap_err() {
        EpubError::Io(_) => {}
        other => panic!("Expected Io, got: {:?}", other),
    }
}

#[test]
fn test_search_empty_query_matches_every_line() {
    let bodies: Vec<String> = (0..2).map(chapter_body).collect();
    let names: Vec<String> = (0..2).map(|i| format!("ch{}.xhtml", i)).collect();
    let entries: Vec<Entry> = (0..2)
        .map(|i| Entry { name: &names[i], body: bodies[i].as_bytes() })
        .collect();
    let bytes = build_epub(&many_chapter_opf(2), &entries);
    let mut epub = EpubReader::new(bytes).expect("Failed to parse test EPUB");

    let results = epub.search("");
    let total: usize = (0..2).map(|i| epub.get_chapter_line_count(i)).sum();
    assert_eq!(results.len(), total);
}

#[test]
fn test_unresolvable_idref_skipped() {
    let body = chapter_body(0);
    let opf = "<?xml version=\"1.0\"?><package><manifest>\
               <item id=\"c0\" href=\"ch0.xhtml\" media-type=\"application/xhtml+xml\"/>\
               </manifest><spine><itemref idref=\"ghost\"/><itemref idref=\"c0\"/></spine></package>";
    let bytes = build_epub(opf, &[Entry { name: "ch0.xhtml", body: body.as_bytes() }]);
    let epub = EpubReader::new(bytes).expect("Failed to parse test EPUB");
    // The reference to an undeclared identifier is silently skipped.
    assert_eq!(epub.chapter_count(), 1);
}

#[test]
fn test_item_outside_manifest_ignored() {
    let body = chapter_body(0);
    let opf = "<?xml version=\"1.0\"?><package><metadata>\
               <item id=\"c0\" href=\"ch0.xhtml\" media-type=\"application/xhtml+xml\"/>\
               </metadata><manifest></manifest>\
               <spine><itemref idref=\"c0\"/></spine></package>";
    let bytes = build_epub(opf, &[Entry { name: "ch0.xhtml", body: body.as_bytes() }]);
    // The item stands outside the manifest region, so nothing resolves and
    // the reading order comes out empty.
    let result = EpubReader::new(bytes);
    match result.unwrap_err() {
        EpubError::InvalidOpfStructure => {}
        other => panic!("Expected InvalidOpfStructure, got: {:?}", other),
    }
}

#[test]
fn test_duplicate_item_id_last_wins() {
    let body = chapter_body(0);
    let opf = "<?xml version=\"1.0\"?><package><manifest>\
               <item id=\"c0\" href=\"missing.xhtml\" media-type=\"application/xhtml+xml\"/>\
               <item id=\"c0\" href=\"ch0.xhtml\" media-type=\"application/xhtml+xml\"/>\
               </manifest><spine><itemref idref=\"c0\"/></spine></package>";
    let bytes = build_epub(opf, &[Entry { name: "ch0.xhtml", body: body.as_bytes() }]);
    let mut epub = EpubReader::new(bytes).expect("Failed to parse test EPUB");
    // Identifiers recorded later overwrite earlier ones, as a map that
    // overwrites on insertion would.
    assert_eq!(epub.chapter_count(), 1);
    let chapter = epub.get_chapter(0).expect("chapter 0");
    assert_eq!(chapter.id, "ch0.xhtml");
}
