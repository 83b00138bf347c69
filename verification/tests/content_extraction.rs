use std::io::Write;

use share_one_list::errors::AppError;
use share_one_list::extract::{
    docx_text, extract_from_bytes, is_pdf_name, local_name, paragraphs_from_events, pdf_text, pptx_text,
    xlsx_text, XmlEvent,
};

/// Builds an in-memory zip with the given (name, content) entries.
fn make_zip(entries: &[(&str, &str)]) -> Vec<u8> {
    let mut buf = std::io::Cursor::new(Vec::new());
    {
        let mut zip = zip::ZipWriter::new(&mut buf);
        let options: zip::write::SimpleFileOptions = Default::default();
        for (name, content) in entries {
            zip.start_file(*name, options).unwrap();
            zip.write_all(content.as_bytes()).unwrap();
        }
        zip.finish().unwrap();
    }
    buf.into_inner()
}

#[test]
fn docx_extracts_paragraphs_in_order() {
    let bytes = make_zip(&[(
        "word/document.xml",
        "<?xml version=\"1.0\"?><w:document xmlns:w=\"x\"><w:body>\
         <w:p><w:r><w:t>第一段，含 &amp; 符号</w:t></w:r></w:p>\
         <w:p><w:r><w:t xml:space=\"preserve\">Second  paragraph</w:t></w:r></w:p>\
         <w:p><w:r><w:t></w:t></w:r></w:p>\
         </w:body></w:document>",
    )]);
    let text = docx_text(&bytes).unwrap();
    assert_eq!(text, "第一段，含 & 符号\nSecond  paragraph");
}

#[test]
fn pptx_orders_slides_by_number() {
    let bytes = make_zip(&[
        (
            "ppt/slides/slide2.xml",
            "<p:sld xmlns:p=\"x\"><p:cSld><p:txBody><a:p xmlns:a=\"y\"><a:r><a:t>Slide two</a:t></a:r></a:p></p:txBody></p:cSld></p:sld>",
        ),
        (
            "ppt/slides/slide1.xml",
            "<p:sld xmlns:p=\"x\"><p:cSld><p:txBody><a:p xmlns:a=\"y\"><a:r><a:t>Slide one</a:t></a:r></a:p><a:p xmlns:a=\"y\"><a:r><a:t>second para</a:t></a:r></a:p></p:txBody></p:cSld></p:sld>",
        ),
        ("ppt/media/image1.png", "not xml"),
    ]);
    let text = pptx_text(&bytes).unwrap();
    assert_eq!(text, "Slide one\nsecond para\n\nSlide two");
}

#[test]
fn xlsx_reads_shared_strings() {
    let bytes = make_zip(&[(
        "xl/sharedStrings.xml",
        "<?xml version=\"1.0\"?><sst xmlns=\"x\">\
         <si><t>产品名称</t></si>\
         <si><t>混合文本 <r><t>续</t></r></t></si>\
         <si><t>第三项</t></si>\
         </sst>",
    )]);
    let text = xlsx_text(&bytes).unwrap();
    assert_eq!(text, "产品名称\n混合文本 续\n第三项");
}

#[test]
fn extract_routes_by_extension() {
    let bytes = make_zip(&[(
        "word/document.xml",
        "<w:document xmlns:w=\"x\"><w:p><w:t>hello doc</w:t></w:p></w:document>",
    )]);
    assert_eq!(extract_from_bytes("report.DOCX", &bytes, None).unwrap(), "hello doc");
    // Unknown extension falls back to lossy UTF-8.
    assert_eq!(extract_from_bytes("notes.txt", "plain".as_bytes(), None).unwrap(), "plain");
}

#[test]
fn docx_rejects_non_zip() {
    assert!(docx_text(b"not a zip").is_err());
}

// Minimal but structurally valid single-page PDF with a text object.
#[test]
fn pdf_extracts_simple_text() {
    let mut objects = [
        "<< /Type /Catalog /Pages 2 0 R >>".to_string(),
        "<< /Type /Pages /Kids [3 0 R] /Count 1 >>".to_string(),
        "<< /Type /Page /Parent 2 0 R /MediaBox [0 0 612 792] /Contents 4 0 R /Resources << /Font << /F1 5 0 R >> >> >>".to_string(),
        String::new(), // stream object filled below
        "<< /Type /Font /Subtype /Type1 /BaseFont /Helvetica >>".to_string(),
    ];
    let stream = b"BT /F1 12 Tf 72 720 Td (Hello from PDF) Tj ET";
    objects[3] = format!(
        "<< /Length {} >>\nstream\n{}\nendstream",
        stream.len(),
        std::str::from_utf8(stream).unwrap()
    );

    let mut pdf = Vec::new();
    pdf.extend_from_slice(b"%PDF-1.4\n");
    let mut offsets = Vec::new();
    for (index, body) in objects.iter().enumerate() {
        offsets.push(pdf.len());
        pdf.extend_from_slice(format!("{} 0 obj\n{}\nendobj\n", index + 1, body).as_bytes());
    }
    let xref_pos = pdf.len();
    pdf.extend_from_slice(format!("xref\n0 {}\n", objects.len() + 1).as_bytes());
    pdf.extend_from_slice(b"0000000000 65535 f \n");
    for offset in &offsets {
        pdf.extend_from_slice(format!("{:010} 00000 n \n", offset).as_bytes());
    }
    pdf.extend_from_slice(
        format!(
            "trailer\n<< /Size {} /Root 1 0 R >>\nstartxref\n{}\n%%EOF",
            objects.len() + 1,
            xref_pos
        )
        .as_bytes(),
    );

    let text = pdf_text(pdf_extract::extract_text_from_mem(&pdf).map_err(|e| e.to_string())).unwrap();
    assert!(
        text.contains("Hello from PDF"),
        "unexpected extracted text: {:?}",
        text
    );
}

#[test]
fn missing_parts_are_reported_by_name() {
    let bytes = make_zip(&[("other.xml", "<a/>")]);
    match docx_text(&bytes) {
        Err(AppError::Validation { message, field }) => {
            assert_eq!(message, "document.xml missing from docx container");
            assert_eq!(field, "item_id");
        }
        other => panic!("unexpected {:?}", other),
    }
    match xlsx_text(&bytes) {
        Err(AppError::Validation { message, .. }) => {
            assert_eq!(message, "sharedStrings.xml missing from xlsx container")
        }
        other => panic!("unexpected {:?}", other),
    }
    match pptx_text(&bytes) {
        Err(AppError::Validation { message, .. }) => {
            assert_eq!(message, "no slides found in pptx container")
        }
        other => panic!("unexpected {:?}", other),
    }
    match docx_text(b"not a zip") {
        Err(AppError::Validation { message, .. }) => {
            assert!(message.starts_with("not a readable Office document: "))
        }
        other => panic!("unexpected {:?}", other),
    }
}

#[test]
fn slides_with_equal_numbers_keep_zip_order_and_empty_slides_are_dropped() {
    let bytes = make_zip(&[
        ("ppt/slides/slide3.xml", "<a:p xmlns:a=\"y\"><a:t>third</a:t></a:p>"),
        ("ppt/slides/slide01.xml", "<a:p xmlns:a=\"y\"><a:t>first A</a:t></a:p>"),
        ("ppt/slides/slide2.xml", "<a:p xmlns:a=\"y\"><a:t>  </a:t></a:p>"),
        ("ppt/slides/slide1.xml", "<a:p xmlns:a=\"y\"><a:t>first B</a:t></a:p>"),
        ("ppt/slides/slideX.xml", "<a:p xmlns:a=\"y\"><a:t>ignored</a:t></a:p>"),
    ]);
    assert_eq!(pptx_text(&bytes).unwrap(), "first A\n\nfirst B\n\nthird");
}

#[test]
fn paragraph_collector_follows_the_events() {
    assert_eq!(local_name(b"w:document"), b"document".to_vec());
    assert_eq!(local_name(b"si"), b"si".to_vec());
    let events = vec![
        XmlEvent::Start(b"w:p".to_vec()),
        XmlEvent::Text("outside".to_string()),
        XmlEvent::Start(b"w:t".to_vec()),
        XmlEvent::Text("  one ".to_string()),
        XmlEvent::End(b"w:t".to_vec()),
        XmlEvent::End(b"w:p".to_vec()),
        XmlEvent::Start(b"w:t".to_vec()),
        XmlEvent::Text("tail".to_string()),
        XmlEvent::Other,
    ];
    assert_eq!(
        paragraphs_from_events(&events, "t", "p"),
        vec!["one".to_string(), "tail".to_string()]
    );
}

#[test]
fn pdf_answers_route_through_the_extractor() {
    assert!(is_pdf_name("Scan.PDF"));
    assert!(!is_pdf_name("pdf.txt"));
    assert_eq!(
        extract_from_bytes("a.pdf", b"ignored", Some(Ok("page text".to_string()))).unwrap(),
        "page text"
    );
    match extract_from_bytes("a.pdf", b"ignored", Some(Err("bad xref".to_string()))) {
        Err(AppError::Validation { message, .. }) => {
            assert_eq!(message, "failed to extract PDF text: bad xref")
        }
        other => panic!("unexpected {:?}", other),
    }
    match pdf_text(Err("no pages".to_string())) {
        Err(AppError::Validation { message, .. }) => {
            assert_eq!(message, "failed to extract PDF text: no pages")
        }
        other => panic!("unexpected {:?}", other),
    }
}
