//! Chunking on accented text, the format and reader rules, provider addressing, and the
//! library's decisions on concrete inputs.

use std::io::Write;

use pai_harness::rag::chunk::{Chunk, ChunkOpts, chunk};
use pai_harness::rag::client::{
    DocumentRecord, FailedFile, IngestReport, StatsReport, events_from_report, read_document, read_stats,
    reason_for, removal_outcome, started,
};
use pai_harness::rag::error::RagError;
use pai_harness::rag::extract::{extract_document, format_for, squeeze, title_of};
use pai_harness::rag::extract::Format as StoredFormat;
use pai_harness::rag::format::Format;
use pai_harness::rag::library::IngestStage;
use pai_harness::rag::native::config::{
    ChunkConfig, LiveSettings, ProjectEntry, ProviderConfig, VectorConfig, check_purge_project, collection,
    reload_plan, reload_step, select_project,
};
use pai_harness::rag::native::embedding::{check_rows, first_line, prefixes_for, restore_order};
use pai_harness::rag::native::extract::{
    ReaderKind, average_chars, check_size, decode_text, docx, extract_bytes, extract_pdf, html,
    looks_binary, mime_for_extension, pdf_from_pages, reader_for, skip_dir,
};
use pai_harness::rag::native::library::{
    FileOutcome, FileStep, run_files, PdfRead, RunReport, document_id, identity_stale, pdf_read, pending_ids, prefers_keyword,
    search_plan, semantic_verdict,
};
use pai_harness::rag::native::vision::{
    Content, check_vision_model, ocr_refusal, ocr_text, read_content, vision_endpoint,
};
use pai_harness::rag::search::MatchedBy;
use pai_harness::rag::store::fts_expressions;
use pai_harness::rag::sidecar::SidecarConfig;
use pai_harness::rag::tools::{
    attachments_vocab, docs_vocab, documents_listing, list_description, no_match, read_description,
    read_limit, render_chunk, search_description,
};

/// Accented Vietnamese: `ế` takes three bytes, so a byte index computed by counting characters
/// lands in the middle of it.
const VAN_BAN_TIENG_VIET: &str = "\
# Sổ tay bảo mật nội bộ

Tài liệu này mô tả cách chúng tôi giữ khoá bí mật và chứng chỉ. Mọi khoá đều được sinh \
trên máy của người dùng, và không có đường nào để chúng rời khỏi thiết bị. Điều đó nghe \
như một chi tiết kỹ thuật, nhưng nó là lời hứa trung tâm của sản phẩm.

Khi một khoá hết hạn, hệ thống sẽ nhắc trước ba mươi ngày. Nhắc sớm hơn thì người ta bỏ \
qua; nhắc muộn hơn thì họ không kịp xoay xở. Ba mươi ngày là chỗ hai điều đó gặp nhau.

## Chứng chỉ và vòng đời của chúng

Chứng chỉ được ký bằng một khoá trung gian, và khoá trung gian đó nằm trong một két \
riêng. Ai cũng đọc được chứng chỉ; không ai đọc được khoá. Đây là cách duy nhất khiến \
việc chia sẻ tài liệu không kéo theo việc chia sẻ quyền.

Mỗi lần gia hạn đều được ghi vào sổ. Sổ chỉ ghi thêm, không sửa và không xoá, vì một bản \
ghi sửa được là một bản ghi không chứng minh được điều gì.

## Những chỗ hay sai

Người ta hay chép khoá vào biến môi trường rồi quên mất rằng biến môi trường đi vào nhật \
ký của mọi công cụ gỡ lỗi đang mở. Đó là lý do phần cấu hình không nhận khoá qua biến môi \
trường, dù làm thế sẽ tiện hơn nhiều cho người viết mã.

Chỗ sai thứ hai là tin vào tên tệp. Một tệp tên `chung-chi-cong-khai.pem` hoàn toàn có \
thể chứa một khoá riêng, và một lần nhìn nhầm là một lần rò rỉ.
";

#[test]
fn cat_doan_tieng_viet_khong_lam_vo_ky_tu() {
    let opts = ChunkOpts::new(320, 60);
    let doan = chunk(VAN_BAN_TIENG_VIET, opts);
    assert!(doan.len() > 3, "văn bản mẫu phải cắt ra nhiều đoạn: {}", doan.len());

    for c in &doan {
        assert!(VAN_BAN_TIENG_VIET.is_char_boundary(c.start), "đoạn #{} bắt đầu ở byte {}", c.ord, c.start);
        assert!(VAN_BAN_TIENG_VIET.is_char_boundary(c.end), "đoạn #{} kết thúc ở byte {}", c.ord, c.end);
        assert!(c.start < c.end, "đoạn #{} rỗng", c.ord);
        assert_eq!(&VAN_BAN_TIENG_VIET[c.start..c.end], c.text, "đoạn #{} không khớp lát cắt gốc", c.ord);
    }

    for (index, c) in doan.iter().enumerate() {
        assert_eq!(c.ord, index as u32);
    }

    for (offset, ch) in VAN_BAN_TIENG_VIET.char_indices() {
        if ch.is_whitespace() {
            continue;
        }
        assert!(
            doan.iter().any(|c| c.start <= offset && offset < c.end),
            "ký tự {ch:?} ở byte {offset} không nằm trong đoạn nào"
        );
    }

    assert!(
        doan.windows(2).any(|cap| cap[1].start < cap[0].end),
        "không có đoạn nào chồng lấn đoạn trước"
    );
}

#[test]
fn cat_doan_giu_tieu_de_muc() {
    let doan = chunk(VAN_BAN_TIENG_VIET, ChunkOpts::new(320, 60));
    let tieu_de: Vec<&str> = doan.iter().filter_map(|c: &Chunk| c.heading.as_deref()).collect();
    assert!(tieu_de.contains(&"Chứng chỉ và vòng đời của chúng"), "{tieu_de:?}");
    assert!(tieu_de.contains(&"Những chỗ hay sai"), "{tieu_de:?}");
}

#[test]
fn cat_cung_mot_khoi_khong_co_dau_cham() {
    let khoi = "đường".repeat(400);
    let doan = chunk(&khoi, ChunkOpts::new(100, 10));
    assert!(doan.len() > 5, "{}", doan.len());
    for c in &doan {
        assert!(khoi.is_char_boundary(c.start) && khoi.is_char_boundary(c.end));
        assert_eq!(&khoi[c.start..c.end], c.text);
    }
}

#[test]
fn chunk_options_keep_overlap_below_target() {
    let opts = ChunkOpts::new(0, 5);
    assert_eq!((opts.target, opts.overlap), (1, 0));
    let opts = ChunkOpts::new(10, 10);
    assert_eq!((opts.target, opts.overlap), (10, 9));
    let opts = ChunkOpts::default();
    assert_eq!((opts.target, opts.overlap), (1000, 150));
    assert!(chunk("   \n\n  ", ChunkOpts::default()).is_empty());
}

#[test]
fn strips_version_suffix_from_provider_url() {
    let provider = ProviderConfig {
        base_url: "http://localhost:1234/v1/".into(),
        ..ProviderConfig::default()
    };
    assert_eq!(provider.root(), "http://localhost:1234");
}

#[test]
fn provider_root_keeps_paths_that_are_not_versions() {
    let root = |url: &str| ProviderConfig { base_url: url.into(), ..ProviderConfig::default() }.root();
    assert_eq!(root("  http://127.0.0.1:11434/  "), "http://127.0.0.1:11434");
    assert_eq!(root("http://host/api/v2"), "http://host/api");
    assert_eq!(root("http://host/v"), "http://host/v");
    assert_eq!(root("http://host/vx1"), "http://host/vx1");
    assert_eq!(ProviderConfig::default().kind, "ollama");
}

#[test]
fn model_prefixes_match_python_policy() {
    assert_eq!(prefixes_for("nomic-embed-text"), ("search_query: ", "search_document: "));
    assert_eq!(prefixes_for("bge-m3"), ("", ""));
    assert!(prefixes_for("qwen3-embedding:4b").0.starts_with("Instruct:"));
}

#[test]
fn model_prefixes_by_family() {
    assert_eq!(prefixes_for("  Multilingual-E5-Large "), ("query: ", "passage: "));
    assert_eq!(prefixes_for("intfloat-e5"), ("query: ", "passage: "));
    assert_eq!(
        prefixes_for("bge-small-en"),
        ("Represent this sentence for searching relevant passages: ", "")
    );
    assert_eq!(prefixes_for("embeddinggemma"), ("task: search result | query: ", "title: none | text: "));
    assert_eq!(prefixes_for("all-minilm"), ("", ""));
}

#[test]
fn html_drops_script_and_keeps_structure() {
    let text = html("<h1>Tiêu đề</h1><script>ignore()</script><p>Nội dung &amp; bảng.</p>");
    assert!(text.contains("Tiêu đề"));
    assert!(text.contains("Nội dung & bảng."));
    assert!(!text.contains("ignore"));
}

#[test]
fn html_breaks_lines_at_blocks_and_drops_styles() {
    let text = html("<div>a</div><STYLE>b{}</STYLE><span>c</span><br/>d");
    assert_eq!(text, "\na\nc\nd");
}

#[test]
fn supported_formats_choose_native_or_report_unsupported() {
    assert_eq!(reader_for("a.md"), Some(ReaderKind::Native(Format::Markdown)));
    assert_eq!(reader_for("a.pdf"), Some(ReaderKind::Pdf));
    assert_eq!(reader_for("a.png"), Some(ReaderKind::Image));
    assert_eq!(reader_for("a.exe"), None);
}

#[test]
fn readers_by_extension_ignore_case() {
    assert_eq!(reader_for("/x/REPORT.DOCX"), Some(ReaderKind::Native(Format::Office)));
    assert_eq!(reader_for("/x/Makefile"), Some(ReaderKind::Native(Format::Text)));
    assert_eq!(reader_for("/x/sheet.xlsx"), Some(ReaderKind::Unsupported));
    assert_eq!(reader_for("/x/data.YAML"), Some(ReaderKind::Native(Format::Data)));
    assert_eq!(mime_for_extension("JPEG"), "image/jpeg");
    assert_eq!(mime_for_extension("heic"), "application/octet-stream");
    assert!(skip_dir("node_modules"));
    assert!(!skip_dir("docs"));
}

#[test]
fn decodes_legacy_vietnamese_windows_text() {
    assert_eq!(decode_text(&[b'T', 0xe0, b'i']), "Tài");
}

#[test]
fn binary_and_empty_files_are_refused_by_name() {
    assert!(looks_binary(b"ab\0c"));
    assert!(!looks_binary(b"abc"));
    match extract_bytes("/d/a.txt", Format::Text, b"x\0y") {
        Err(RagError::Extraction(why)) => assert_eq!(why, "`/d/a.txt` trông như tệp nhị phân dù mang đuôi văn bản"),
        other => panic!("phải từ chối tệp nhị phân, gặp {:?}", other.err()),
    }
    match extract_bytes("/d/a.txt", Format::Text, b"  \n ") {
        Err(RagError::Extraction(why)) => assert_eq!(why, "`/d/a.txt` không có nội dung chữ"),
        other => panic!("phải từ chối tệp trắng, gặp {:?}", other.err()),
    }
    let ok = extract_bytes("/d/ghi-chu.md", Format::Markdown, "  # Chào\n".as_bytes()).expect("đọc được");
    assert_eq!(ok.text, "# Chào");
    assert_eq!(ok.title, "ghi-chu");
    match check_size("/d/x", 0) {
        Err(RagError::Extraction(why)) => assert_eq!(why, "`/d/x` là tệp rỗng"),
        other => panic!("{:?}", other.err()),
    }
    match check_size("/d/x", 64 * 1024 * 1024 + 1) {
        Err(RagError::Extraction(why)) => assert_eq!(why, "`/d/x` vượt trần 64 MB"),
        other => panic!("{:?}", other.err()),
    }
}

fn docx_bytes(document_xml: &[u8]) -> Vec<u8> {
    let cursor = std::io::Cursor::new(Vec::new());
    let mut writer = zip::ZipWriter::new(cursor);
    writer
        .start_file("word/document.xml", zip::write::SimpleFileOptions::default())
        .unwrap();
    writer.write_all(document_xml).unwrap();
    writer.finish().unwrap().into_inner()
}

#[test]
fn docx_extracts_paragraphs_and_entities() {
    let bytes = docx_bytes(
        br#"<w:document xmlns:w="urn:w"><w:body><w:p><w:r><w:t>Cai dat &amp; cau hinh</w:t></w:r></w:p><w:p><w:r><w:t>dong hai</w:t></w:r></w:p></w:body></w:document>"#,
    );
    let text = docx("fixture.docx", &bytes).unwrap();
    assert!(text.contains("Cai dat & cau hinh"));
    assert!(text.contains("dong hai"));
    assert!(text.contains('\n'));
}

#[test]
fn docx_that_is_not_a_zip_is_one_file_failure() {
    match docx("hong.docx", b"not a zip") {
        Err(RagError::Extraction(why)) => assert!(why.starts_with("không mở được DOCX `hong.docx`: "), "{why}"),
        other => panic!("{:?}", other.err()),
    }
}

#[test]
fn pdf_pages_are_marked_and_averaged() {
    let pages = vec!["  một  ".to_string(), "hai".to_string()];
    assert_eq!(average_chars(&pages), 3);
    assert_eq!(average_chars(&Vec::new()), 0);
    let extracted = pdf_from_pages("/d/bao-cao.pdf", pages.clone(), vec![2]);
    assert_eq!(extracted.text, "<!-- pai-page:1 -->\n\nmột\n\n<!-- pai-page:2 -->\n\nhai");
    assert_eq!(extracted.title, "bao-cao");
    assert_eq!(extracted.pages, 2);
    assert_eq!(extracted.ocr_pages, vec![2]);
    assert!(matches!(extract_pdf("/d/a.pdf", pages.clone(), 1), Ok(x) if x.format == Format::Pdf));
    match extract_pdf("/d/a.pdf", pages, 1000) {
        Err(RagError::Extraction(why)) => {
            assert_eq!(why, "PDF `/d/a.pdf` không có đủ lớp chữ; cần bật OCR và chọn mô hình vision")
        }
        other => panic!("{:?}", other.err()),
    }
}

#[test]
fn identifiers_choose_keyword_search() {
    assert!(prefers_keyword("tìm HD-2026-0042"));
    assert!(prefers_keyword("\"exact phrase\""));
    assert!(!prefers_keyword("tài liệu nói về gì"));
}

#[test]
fn short_or_letterless_tokens_stay_semantic() {
    assert!(!prefers_keyword("a1"));
    assert!(!prefers_keyword("2026 0042"));
    assert!(prefers_keyword("“trích dẫn”"));
    assert!(!prefers_keyword("“chỉ mở"));
    assert!(prefers_keyword("mã x99"));
}

#[test]
fn document_ids_match_python_sha1_prefix() {
    assert_eq!(document_id("/root", "/root/docs/a.md"), "f00cbb922d5ef4be");
}

#[test]
fn search_plans_clamp_and_widen() {
    let plan = search_plan("tài liệu nói về gì", 0, 30, true);
    assert_eq!((plan.limit, plan.keyword_only, plan.pool, plan.keyword_limit), (1, false, 30, 30));
    let plan = search_plan("HD-2026-0042", 100, 30, true);
    assert_eq!((plan.limit, plan.keyword_only, plan.pool, plan.keyword_limit), (30, true, 120, 30));
    let plan = search_plan("câu hỏi", 8, 20, false);
    assert!(plan.keyword_only);
}

#[test]
fn semantic_verdict_names_the_first_cause() {
    assert_eq!(semantic_verdict(true, None, true, 10, 10), (true, None));
    assert_eq!(
        semantic_verdict(false, Some("x".into()), true, 10, 0).1.as_deref(),
        Some("Chưa chọn mô hình nhúng; tìm kiếm đang dùng từ khoá.")
    );
    assert_eq!(semantic_verdict(true, Some("hỏng".into()), false, 10, 0).1.as_deref(), Some("hỏng"));
    assert_eq!(
        semantic_verdict(true, None, false, 10, 0).1.as_deref(),
        Some("Qdrant không trả lời; tìm kiếm đang dùng từ khoá.")
    );
    assert_eq!(semantic_verdict(true, None, true, 0, 0).1.as_deref(), Some("Thư viện chưa có đoạn nào để nhúng."));
    assert_eq!(semantic_verdict(true, None, true, 10, 4).1.as_deref(), Some("Còn 6 đoạn chưa được nhúng."));
}

#[test]
fn run_report_ends_with_finished() {
    let mut report = RunReport::new(3, 0);
    report.record_ingested();
    report.record_failure("/d/b.pdf".into(), "hỏng".into());
    report.embed_error = Some("chết".into());
    let events = report.events("/d");
    assert_eq!(events.len(), 3);
    assert_eq!(events[0].stage, IngestStage::Failed);
    assert_eq!(events[0].path, "/d/b.pdf");
    assert_eq!(events[0].error.as_deref(), Some("hỏng"));
    assert_eq!((events[0].done, events[0].total), (1, 3));
    assert_eq!(events[1].stage, IngestStage::Embedding);
    assert_eq!(events[2].stage, IngestStage::Finished);
    assert!(events[2].finished);
}

#[test]
fn pdf_reading_plan() {
    let sparse = vec!["".to_string(), "chữ".repeat(100)];
    assert!(matches!(pdf_read("/d/a.pdf", &sparse, 150, false, false, 200), Err(RagError::Extraction(_))));
    assert!(matches!(pdf_read("/d/a.pdf", &sparse, 250, false, false, 200), Ok(PdfRead::TextLayer)));
    assert!(matches!(pdf_read("/d/a.pdf", &sparse, 150, true, true, 200), Ok(PdfRead::Ocr)));
    match pdf_read("/d/a.pdf", &sparse, 150, true, false, 200) {
        Err(RagError::Extraction(why)) => {
            assert_eq!(why, "đây là PDF quét; hãy chọn mô hình vision trong Cài đặt rồi xử lý lại")
        }
        other => panic!("{:?}", other.err()),
    }
    let dense = vec!["chữ".repeat(100)];
    assert!(matches!(pdf_read("/d/a.pdf", &dense, 300, false, false, 200), Ok(PdfRead::TextLayer)));
}

#[test]
fn pending_ids_skip_existing_vectors() {
    assert_eq!(pending_ids(&vec![1, 2, 3], &vec![2], false), vec![1, 3]);
    assert_eq!(pending_ids(&vec![1, 2, 3], &vec![2], true), vec![1, 2, 3]);
}

#[test]
fn labels_round_trip() {
    assert_eq!(Format::parse("  DOCX "), Format::Office);
    assert_eq!(Format::parse("csv"), Format::Data);
    assert_eq!(Format::parse("sách"), Format::Text);
    assert_eq!(Format::Markdown.as_str(), "markdown");
    assert_eq!(MatchedBy::parse(" Both "), MatchedBy::Both);
    assert_eq!(MatchedBy::parse("vector"), MatchedBy::Keyword);
    assert_eq!(MatchedBy::Semantic.as_str(), "semantic");
    assert_eq!(IngestStage::Embedding.as_str(), "embedding");
    assert_eq!(StoredFormat::parse("docx"), StoredFormat::Docx);
    assert_eq!(StoredFormat::parse("DOCX"), StoredFormat::Text);
    assert_eq!(format_for("/d/x.MDX"), Some(StoredFormat::Markdown));
    assert_eq!(format_for("/d/x.vue"), Some(StoredFormat::Code));
    assert_eq!(format_for("/d/x.png"), None);
}

#[test]
fn titles_and_squeezed_markup() {
    assert_eq!(title_of(StoredFormat::Markdown, "\n\n## Tiêu đề  \nthân", "tep"), "Tiêu đề");
    assert_eq!(title_of(StoredFormat::Csv, "a,b\n1,2", "bang"), "bang");
    assert_eq!(title_of(StoredFormat::Html, "   \n", "trang"), "trang");
    assert_eq!(title_of(StoredFormat::Pdf, &"x".repeat(121), "dai"), "dai");
    assert_eq!(squeeze("  a  \n\n\n\n b\n"), "a\n\nb\n");
}

#[test]
fn config_rules() {
    assert_eq!(collection("pai_docs", "p1"), "pai_docs_p1");
    assert!(check_purge_project("p1").is_ok());
    assert!(check_purge_project("..").is_err());
    assert!(check_purge_project("a/b").is_err());
    let projects = vec![ProjectEntry { id: "p1".into(), root: "/docs".into() }];
    let (id, root) = select_project("", " p1 ", &projects, "/fallback").expect("chọn được");
    assert_eq!((id.as_str(), root.as_str()), ("p1", "/docs"));
    let (_, root) = select_project("p2", "p1", &projects, "/fallback").expect("chọn được");
    assert_eq!(root, "/fallback");
    match select_project(" ", "", &projects, "/fallback") {
        Err(RagError::Unavailable(why)) => assert_eq!(why, "chưa có dự án tài liệu đang mở"),
        other => panic!("{:?}", other.err()),
    }
    assert_eq!(first_line("  lỗi 500 \r\nchi tiết"), "lỗi 500");
}

#[test]
fn tool_answers() {
    assert_eq!(read_limit(None), 6);
    assert_eq!(read_limit(Some(99)), 30);
    assert_eq!(render_chunk("Sổ tay", 3, &Some("Mục".into()), "thân"), "[Sổ tay #3 — Mục]\nthân");
    assert_eq!(render_chunk("Sổ tay", 0, &None, "thân"), "[Sổ tay #0]\nthân");
    assert_eq!(
        no_match("khoá", 2, &Some("lý do".into())),
        "Không có đoạn nào khớp `khoá` trong 2 tài liệu của thư viện.\n\nlý do"
    );
    let listing = documents_listing(&Vec::new(), &None);
    assert!(listing.starts_with("Thư viện tài liệu của dự án này đang trống."));
}

#[test]
fn sidecar_environment_is_ordered_and_replaces() {
    let config = SidecarConfig::uv("/svc".into(), "p1".into())
        .with_env("B".into(), "1".into())
        .with_env("A".into(), "2".into())
        .with_env("B".into(), "3".into());
    assert_eq!(config.command, "uv");
    assert_eq!(config.args, vec!["run", "--python", "3.12", "pai-rag", "serve"]);
    assert_eq!(
        config.env,
        vec![("A".to_string(), "2".to_string()), ("B".to_string(), "3".to_string())]
    );
}

fn report(scanned: u64, ingested: u64, failed: Vec<FailedFile>, embed_error: Option<&str>) -> IngestReport {
    IngestReport { scanned, ingested, failed, embed_error: embed_error.map(str::to_string) }
}

fn stats_report(chunks: u64, vectors: u64, qdrant_reachable: bool) -> StatsReport {
    StatsReport {
        documents: 0,
        chunks,
        vectors,
        qdrant_reachable,
        embedder: None,
        root: None,
        files_seen: 0,
        files_skipped: 0,
        failures: 0,
        excluded: 0,
        scanned_at: None,
    }
}

fn record(id: &str, format: &str, chunks: u64, error: Option<&str>) -> DocumentRecord {
    DocumentRecord {
        document_id: id.to_string(),
        path: String::new(),
        title: String::new(),
        format: format.to_string(),
        bytes: 0,
        chunks,
        added_at: 0,
        error: error.map(str::to_string),
        pages: 0,
        ocr_pages: Vec::new(),
    }
}

#[test]
fn dinh_dang_la_khong_lam_mat_ca_danh_sach() {
    let doc = read_document(&record("d1", "dinh-dang-tuong-lai", 4, None));
    assert_eq!(doc.format, Format::Text, "nhãn lạ lùi về text, không phải lỗi");
    assert!(doc.embedded, "có đoạn và không lỗi nghĩa là đã xong");

    let hong = read_document(&record("d2", "", 0, Some("PDF cụt")));
    assert!(!hong.embedded);
    assert_eq!(hong.error.as_deref(), Some("PDF cụt"));
}

#[test]
fn nhung_nua_chung_khong_phai_la_san_sang() {
    let root = "D:/tl";
    let half = read_stats(&stats_report(10, 4, true), root, None);
    assert!(!half.semantic_ready);
    let reason = half.reason.expect("phải nói ra vì sao");
    assert!(reason.contains("4/10"), "phải nói ra con số: {reason}");

    let full = read_stats(&stats_report(10, 10, true), root, None);
    assert!(full.semantic_ready);
    assert!(full.reason.is_none(), "sẵn sàng thì không có gì để giải thích");
}

#[test]
fn ly_do_chi_dung_nguyen_nhan_goc() {
    let root = "D:/tl";
    let chet = read_stats(&stats_report(10, 0, false), root, Some("không chạy được uv".to_string()));
    let reason = chet.reason.unwrap();
    assert!(reason.contains("Service"), "{reason}");
    assert!(!reason.contains("Qdrant"), "đừng đổ lỗi cho Qdrant khi service đã chết");

    let khong_qdrant = read_stats(&stats_report(10, 0, false), root, None);
    assert!(khong_qdrant.reason.unwrap().contains("docker compose"));

    let trong = read_stats(&stats_report(0, 0, true), root, None);
    assert!(trong.reason.unwrap().contains("Thả tệp"));
}

#[test]
fn dong_tien_trinh_luon_dong_lai() {
    let hong = events_from_report("D:/tl", Err(RagError::Service("chết".into())));
    assert_eq!(hong.last().unwrap().stage, IngestStage::Finished);
    assert!(hong.last().unwrap().finished);
    assert_eq!(hong[0].stage, IngestStage::Failed);
    assert!(hong[0].error.as_deref().unwrap().contains("chết"));

    let xong = events_from_report("D:/tl", Ok(report(5, 5, Vec::new(), None)));
    assert_eq!(xong.len(), 1);
    assert_eq!(xong[0].stage, IngestStage::Finished);
    assert_eq!(xong[0].done, 5);
    assert_eq!(xong[0].total, 5);
}

#[test]
fn nhung_hong_khong_bi_dem_la_tep_hong() {
    let events = events_from_report("D:/tl", Ok(report(3, 3, Vec::new(), Some("không nối được Qdrant"))));
    let stages: Vec<_> = events.iter().map(|item| item.stage).collect();
    assert_eq!(stages, vec![IngestStage::Embedding, IngestStage::Finished]);
}

#[test]
fn tep_hong_duoc_ke_ten_kem_ly_do() {
    let events = events_from_report(
        "D:/tl",
        Ok(report(
            2,
            1,
            vec![FailedFile { path: "D:/tl/a.pdf".to_string(), reason: "PDF cụt".to_string() }],
            None,
        )),
    );
    assert_eq!(events[0].stage, IngestStage::Failed);
    assert_eq!(events[0].path, "D:/tl/a.pdf");
    assert_eq!(events[0].error.as_deref(), Some("PDF cụt"));
}

#[test]
fn stats_keep_the_service_numbers_and_fall_back_to_the_project_root() {
    let mut report = stats_report(7, 7, true);
    report.documents = 3;
    report.embedder = Some(String::new());
    report.failures = 2;
    report.files_seen = 9;
    report.scanned_at = Some(1_700);
    let stats = read_stats(&report, "D:/tl", None);
    assert_eq!(stats.documents, 3);
    assert_eq!(stats.embedded_chunks, 7);
    assert_eq!(stats.embedder, None, "an empty embedder name is no embedder");
    assert_eq!(stats.root, "D:/tl");
    assert_eq!(stats.unreadable, 2);
    assert_eq!(stats.files_seen, 9);
    assert_eq!(stats.scanned_at, Some(1_700));
    assert!(stats.scanning.is_none());
    report.root = Some("E:/khac".to_string());
    report.embedder = Some("bge-m3".to_string());
    let named = read_stats(&report, "D:/tl", None);
    assert_eq!(named.root, "E:/khac");
    assert_eq!(named.embedder.as_deref(), Some("bge-m3"));
    assert_eq!(
        reason_for(false, true, 10, 4, None).as_deref(),
        Some("Đang nhúng: 4/10 đoạn đã có vector. Tìm theo từ khoá vẫn chạy bình thường trong lúc chờ.")
    );
}

#[test]
fn a_run_ticks_each_failure_then_finishes() {
    let events = events_from_report(
        "D:/tl",
        Ok(report(
            4,
            2,
            vec![
                FailedFile { path: "a".to_string(), reason: "x".to_string() },
                FailedFile { path: "b".to_string(), reason: "y".to_string() },
            ],
            Some(""),
        )),
    );
    let stages: Vec<_> = events.iter().map(|item| item.stage).collect();
    assert_eq!(stages, vec![IngestStage::Failed, IngestStage::Failed, IngestStage::Finished]);
    assert!(events.iter().all(|e| e.done == 2 && e.total == 4 && e.document.is_none()));
    assert_eq!(events[2].path, "D:/tl");
    let first = started("D:/tl");
    assert_eq!(first.stage, IngestStage::Reading);
    assert!(!first.finished);
    assert!(matches!(removal_outcome("d9", Some(false)), Err(RagError::NotFound(id)) if id == "d9"));
    assert!(removal_outcome("d9", Some(true)).is_ok());
    assert!(removal_outcome("d9", None).is_ok());
}

#[test]
fn a_listed_document_keeps_its_ocr_pages() {
    let mut r = record("d3", " PDF ", 2, None);
    r.path = "D:/tl/x.pdf".to_string();
    r.ocr_pages = vec![2, 5];
    r.pages = 6;
    let doc = read_document(&r);
    assert_eq!(doc.format, Format::Pdf);
    assert_eq!(doc.origin, "D:/tl/x.pdf");
    assert_eq!(doc.ocr_pages, vec![2, 5]);
    assert_eq!(doc.pages, 6);
}

#[test]
fn a_new_reader_or_input_version_forgets_every_fingerprint() {
    assert!(!identity_stale(Some("2"), Some("1")));
    assert!(identity_stale(Some("1"), Some("1")), "an older reader read differently");
    assert!(identity_stale(Some("2"), Some("0")));
    assert!(identity_stale(None, Some("1")), "a store that never recorded a version is stale");
    assert!(identity_stale(Some("2"), None));
}

#[test]
fn each_mount_describes_only_its_own_tools() {
    let docs = docs_vocab();
    assert_eq!(
        list_description(&docs),
        "Liệt kê thư viện tài liệu của dự án: mã, tên, định dạng và số đoạn. Dùng mã ở đây cho `docs.read`. Kết quả cũng nói phần tìm theo ý nghĩa đã sẵn sàng chưa — khi chưa, hãy hỏi `docs.search` bằng từ khoá cụ thể."
    );
    assert_eq!(
        read_description(&docs),
        "Đọc một tài liệu theo thứ tự, từng đoạn một. Dùng nó sau `docs.search` để xem phần trước và sau của một đoạn đã tìm được; `offset` đếm theo số thứ tự đoạn mà `docs.search` đã in ra."
    );
    let shelf = attachments_vocab();
    let search = search_description(&shelf);
    assert!(search.starts_with("Tìm những đoạn liên quan trong những tệp người dùng đã đính kèm vào cuộc trò chuyện."));
    assert!(search.contains("`attachment.read`"));
    assert!(!search.contains("docs."));
}

#[test]
fn reads_both_openai_content_shapes() {
    assert_eq!(read_content(&Content::Text("abc".to_string())), "abc");
    assert_eq!(
        read_content(&Content::Parts(vec![Some("a".to_string()), Some("b".to_string())])),
        "a\nb"
    );
}

#[test]
fn a_vision_answer_keeps_only_its_text() {
    let parts = Content::Parts(vec![None, Some("  dòng một".to_string()), None, Some("dòng hai \n".to_string())]);
    assert_eq!(read_content(&parts), "  dòng một\ndòng hai \n");
    assert_eq!(ocr_text(&parts), "dòng một\ndòng hai");
    assert_eq!(ocr_text(&Content::Other), "");
    let mut provider = ProviderConfig::default();
    assert!(matches!(check_vision_model(&provider), Err(RagError::Unavailable(_))));
    provider.model = "qwen2.5-vl".to_string();
    provider.base_url = "http://localhost:1234/v1/".to_string();
    assert!(check_vision_model(&provider).is_ok());
    assert_eq!(vision_endpoint(&provider), "http://localhost:1234/v1/chat/completions");
    match ocr_refusal("qwen2.5-vl", "500 Internal Server Error", " quá tải \nchi tiết") {
        RagError::Extraction(why) => assert_eq!(why, "model vision `qwen2.5-vl` trả 500 Internal Server Error: quá tải"),
        other => panic!("{other:?}"),
    }
}

#[test]
fn openai_rows_are_restored_by_index() {
    let rows = vec![(Some(1u64), vec![2.0f32]), (Some(0u64), vec![1.0f32])];
    let lengths: Vec<usize> = rows.iter().map(|(_, row)| row.len()).collect();
    assert!(check_rows("test", 2, &lengths).is_ok());
    assert_eq!(restore_order(rows), vec![vec![1.0], vec![2.0]]);
}

#[test]
fn rows_without_an_index_keep_their_place_and_bad_batches_are_named() {
    let rows = vec![(None, "a"), (Some(0u64), "b"), (None, "c"), (Some(1u64), "d")];
    // Keys: a→0, b→0, c→2, d→1; the sort is stable, so `a` stays before `b`.
    assert_eq!(restore_order(rows), vec!["a", "b", "d", "c"]);
    match check_rows("bge-m3", 3, &vec![4, 4]) {
        Err(RagError::Service(why)) => assert_eq!(why, "model `bge-m3`: xin 3 vector nhưng nhận 2"),
        other => panic!("{other:?}"),
    }
    match check_rows("bge-m3", 2, &vec![4, 0]) {
        Err(RagError::Service(why)) => assert_eq!(why, "model `bge-m3` trả về vector rỗng"),
        other => panic!("{other:?}"),
    }
}

#[test]
fn a_query_becomes_quoted_words_all_and_any() {
    assert_eq!(
        fts_expressions("chính sách, bảo_mật 2024!"),
        Some((
            "\"chính\" AND \"sách\" AND \"bảo_mật\" AND \"2024\"".to_string(),
            "\"chính\" OR \"sách\" OR \"bảo_mật\" OR \"2024\"".to_string(),
        ))
    );
    assert_eq!(fts_expressions("  -- ?? "), None);
    assert_eq!(fts_expressions("x"), Some(("\"x\"".to_string(), "\"x\"".to_string())));
}

#[test]
fn a_reload_rebuilds_only_what_changed() {
    let running = LiveSettings {
        embedding: ProviderConfig { model: "bge-m3".to_string(), ..ProviderConfig::default() },
        vision: ProviderConfig::default(),
        vectors: VectorConfig::default(),
        chunk: ChunkConfig::default(),
    };
    let same = reload_plan(&running, &running.clone());
    assert!(!same.rebuild_embedder && !same.rebuild_vision && !same.reset_fingerprints);

    let mut fresh = running.clone();
    fresh.vectors.collection_prefix = "khac".to_string();
    fresh.chunk.overlap = 0;
    let plan = reload_plan(&running, &fresh);
    assert!(plan.rebuild_embedder, "a new collection needs a new identity");
    assert!(!plan.rebuild_vision);
    assert!(plan.reset_fingerprints, "new chunking cuts every file again");

    let mut seen = running.clone();
    seen.vision.model = "qwen2.5-vl".to_string();
    let plan = reload_plan(&running, &seen);
    assert!(!plan.rebuild_embedder && plan.rebuild_vision && !plan.reset_fingerprints);
}

#[test]
fn a_reload_step_waits_refuses_a_move_and_plans_otherwise() {
    let running = LiveSettings {
        embedding: ProviderConfig { model: "bge-m3".to_string(), ..ProviderConfig::default() },
        vision: ProviderConfig::default(),
        vectors: VectorConfig::default(),
        chunk: ChunkConfig::default(),
    };
    let mut fresh = running.clone();
    fresh.chunk.overlap = 0;
    assert!(matches!(reload_step(false, true, true, &running, &fresh), Ok(None)));
    match reload_step(true, true, false, &running, &fresh) {
        Err(RagError::Service(m)) => assert!(m.contains("mở lại dự án")),
        _ => panic!("a moved store must be refused"),
    }
    assert!(matches!(reload_step(true, false, true, &running, &fresh), Err(RagError::Service(_))));
    match reload_step(true, false, false, &running, &fresh) {
        Ok(Some(plan)) => {
            assert!(plan.reset_fingerprints && !plan.rebuild_embedder && !plan.clear_embed_error);
            assert!(plan.embedder && !plan.vision);
        }
        _ => panic!("unchanged paths must give a plan"),
    }
}

#[test]
fn a_run_reports_reading_and_stored_for_each_file() {
    let mut report = RunReport::new(1, 0);
    let remember = report.ingest_step(true, 0, "/d/guide.md".into(), FileStep::Read, Ok(()));
    assert!(!remember);
    report.embed_error = Some("chưa chọn mô hình nhúng".into());
    let events = report.events("/d");
    assert_eq!(events.len(), 4);
    assert_eq!(events[0].stage, IngestStage::Reading);
    assert_eq!(events[0].path, "/d/guide.md");
    assert_eq!((events[0].done, events[0].total), (0, 1));
    assert_eq!(events[1].stage, IngestStage::Stored);
    assert_eq!((events[1].done, events[1].total), (1, 1));
    assert_eq!(events[2].stage, IngestStage::Embedding);
    assert_eq!(events[3].stage, IngestStage::Finished);
    assert_eq!((events[3].done, events[3].total), (1, 1));
}

#[test]
fn a_failed_file_is_remembered_only_when_it_was_at_fault() {
    let mut report = RunReport::new(3, 0);
    assert!(report.ingest_step(true, 0, "/d/a.pdf".into(), FileStep::Read, Err(RagError::Extraction("hỏng".into()))));
    assert!(!report.ingest_step(true, 1, "/d/b.xyz".into(), FileStep::Read, Err(RagError::Service("không hỗ trợ".into()))));
    assert!(!report.ingest_step(false, 2, "/d/c.pdf".into(), FileStep::Read, Err(RagError::Extraction("hỏng".into()))));
    assert!(!report.ingest_step(true, 2, "/d/d.md".into(), FileStep::Unchanged, Ok(())));
    assert!(!report.ingest_step(true, 2, "/d/e.md".into(), FileStep::Excluded, Ok(())));
    assert_eq!((report.ingested, report.unchanged, report.excluded), (0, 1, 1));
    assert_eq!(report.failures.len(), 3);
    assert_eq!(report.failures[0], ("/d/a.pdf".to_string(), "hỏng".to_string()));
    let events = report.events("/d");
    assert_eq!(events.len(), 3 + 3 + 1);
    assert!(events[..3].iter().all(|event| event.stage == IngestStage::Reading));
    assert_eq!(events[3].stage, IngestStage::Failed);
}

#[test]
fn the_next_chunk_reopens_the_tail_of_the_one_before() {
    let text = "aaaa bbbb.\n\ncccc dddd.";
    let chunks = chunk(text, ChunkOpts::new(10, 4));
    assert_eq!(
        chunks,
        vec![
            Chunk { ord: 0, text: "aaaa bbbb.".to_string(), start: 0, end: 10, heading: None },
            Chunk { ord: 1, text: "bbb.\n\ncccc dddd.".to_string(), start: 6, end: 22, heading: None },
        ]
    );
}

fn stored_document(name: &str, bytes: &[u8]) -> pai_harness::rag::extract::Extracted {
    let shown = format!("/tai-lieu/{name}");
    let stem = name.rsplit_once('.').map(|(stem, _)| stem).unwrap_or(name);
    extract_document(&shown, stem, format_for(&shown), bytes.len() as u64, bytes).unwrap()
}

#[test]
fn rut_chu_tu_docx_that() {
    let bytes = docx_bytes(
        r#"<?xml version="1.0" encoding="UTF-8" standalone="yes"?>
<w:document xmlns:w="http://schemas.openxmlformats.org/wordprocessingml/2006/main">
<w:body>
<w:p><w:r><w:t>Báo cáo bảo mật quý ba</w:t></w:r></w:p>
<w:p><w:r><w:t xml:space="preserve">Đoạn thứ nhất nói về </w:t></w:r><w:r><w:t>khoá &amp; chứng chỉ.</w:t></w:r></w:p>
<w:p><w:r><w:t>Đoạn thứ hai nằm ở dòng khác.</w:t></w:r></w:p>
</w:body>
</w:document>"#
            .as_bytes(),
    );
    let ra = stored_document("bao-cao-final-v3.docx", &bytes);
    assert_eq!(ra.format, StoredFormat::Docx);
    assert!(ra.text.contains("Báo cáo bảo mật quý ba"), "{:?}", ra.text);
    assert!(ra.text.contains("Đoạn thứ nhất nói về khoá & chứng chỉ."), "{:?}", ra.text);
    assert!(ra.text.contains("chứng chỉ.\nĐoạn thứ hai"), "mất ranh giới đoạn: {:?}", ra.text);
    assert_eq!(ra.title, "Báo cáo bảo mật quý ba");
}

#[test]
fn rut_chu_tu_html_bo_han_script_va_style() {
    let html = r#"<html><head><style>body { color: #ff0000 }</style></head>
<body>
<h1>Chính sách riêng tư</h1>
<p>Nội dung &amp; điều khoản áp dụng.</p>
<script>var loi = "câu này không được vào chỉ mục";</script>
<div>Phần cuối của trang.</div>
</body></html>"#;
    let ra = stored_document("chinh-sach.html", html.as_bytes());
    assert_eq!(ra.format, StoredFormat::Html);
    assert!(ra.text.contains("Chính sách riêng tư"), "{:?}", ra.text);
    assert!(ra.text.contains("Nội dung & điều khoản áp dụng."), "{:?}", ra.text);
    assert!(ra.text.contains("Phần cuối của trang."), "{:?}", ra.text);
    assert!(!ra.text.contains("câu này không được vào chỉ mục"), "script lọt vào: {:?}", ra.text);
    assert!(!ra.text.contains("#ff0000"), "style lọt vào: {:?}", ra.text);
    assert_eq!(ra.title, "Chính sách riêng tư");
}

#[test]
fn rut_chu_tu_csv() {
    let ra = stored_document("ton-kho.csv", "tên,số lượng,ghi chú\nbàn phím,3,còn bảo hành\nchuột,5,hết hàng\n".as_bytes());
    assert_eq!(ra.format, StoredFormat::Csv);
    assert!(ra.text.contains("bàn phím,3,còn bảo hành"), "{:?}", ra.text);
    assert_eq!(ra.title, "ton-kho");
}

#[test]
fn a_document_is_refused_with_a_reason_it_names() {
    match extract_document("/d/anh.png", "anh", format_for("/d/anh.png"), 10, b"x") {
        Err(RagError::Unsupported(path)) => assert_eq!(path, "/d/anh.png"),
        other => panic!("{:?}", other.err()),
    }
    match extract_document("/d/to.txt", "to", Some(StoredFormat::Text), 64 * 1024 * 1024 + 1, b"") {
        Err(RagError::TooLarge { path, bytes, limit }) => {
            assert_eq!((path.as_str(), bytes, limit), ("/d/to.txt", 64 * 1024 * 1024 + 1, 64 * 1024 * 1024))
        }
        other => panic!("{:?}", other.err()),
    }
    match extract_document("/d/trong.md", "trong", Some(StoredFormat::Markdown), 3, b" \n ") {
        Err(error) => {
            assert!(matches!(error, RagError::Empty { .. }));
            assert_eq!(error.message(), "`/d/trong.md` không cho chữ nào: tệp rỗng, hoặc chỉ có khoảng trắng");
        }
        other => panic!("{:?}", other.err()),
    }
    match extract_document("/d/hong.docx", "hong", Some(StoredFormat::Docx), 9, b"not a zip") {
        Err(RagError::Extract { path, message }) => {
            assert_eq!(path, "/d/hong.docx");
            assert!(message.starts_with("không mở được dạng zip: "), "{message}");
        }
        other => panic!("{:?}", other.err()),
    }
    let pdf = extract_document("/d/bao-cao.pdf", "bao-cao", Some(StoredFormat::Pdf), 100, "Bao cao ky thuat quy ba".as_bytes()).unwrap();
    assert_eq!(pdf.text, "Bao cao ky thuat quy ba");
    assert_eq!(pdf.title, "Bao cao ky thuat quy ba");
}

#[test]
fn tu_choi_tep_nhi_phan() {
    let mut bytes = b"GIF89a".to_vec();
    bytes.extend_from_slice(&[0u8; 64]);
    bytes.extend_from_slice("chữ nằm sau byte NUL".as_bytes());
    let err = extract_document("/d/anh.txt", "anh", format_for("/d/anh.txt"), bytes.len() as u64, &bytes)
        .expect_err("tệp có byte NUL phải bị từ chối");
    assert!(matches!(err, RagError::Binary(_)), "lỗi sai loại: {:?}", err);

    let mut sach = vec![b'a'; 5000];
    sach.push(0);
    let ra = extract_document("/d/dai.txt", "dai", format_for("/d/dai.txt"), sach.len() as u64, &sach);
    assert!(ra.is_ok(), "NUL sau 4096 byte đầu không bị dò: {:?}", ra.err());
}

#[test]
fn every_file_of_a_run_counts_once() {
    let files = vec![
        FileOutcome { shown: "/d/a.md".into(), step: FileStep::Read, outcome: Ok(()) },
        FileOutcome { shown: "/d/b.md".into(), step: FileStep::Unchanged, outcome: Ok(()) },
        FileOutcome { shown: "/d/c.pdf".into(), step: FileStep::Read, outcome: Err(RagError::Extraction("hỏng".into())) },
        FileOutcome { shown: "/d/d.md".into(), step: FileStep::Excluded, outcome: Ok(()) },
    ];
    let (report, remember) = run_files(true, 2, files);
    assert_eq!(report.scanned, 4);
    assert_eq!(report.over_limit, 2);
    assert_eq!((report.ingested, report.unchanged, report.excluded, report.failures.len()), (1, 1, 1, 1));
    assert_eq!(remember, vec![false, false, true, false]);
    let events = report.events("/d");
    assert_eq!(events[0].stage, IngestStage::Reading);
    assert_eq!((events[1].stage, events[1].done, events[1].total), (IngestStage::Stored, 1, 4));
    assert_eq!((events[2].stage, events[2].done), (IngestStage::Reading, 2));
    assert_eq!(events.last().unwrap().stage, IngestStage::Finished);
}

#[test]
fn a_variable_added_to_an_unordered_list_still_wins() {
    let mut config = SidecarConfig::uv("/svc".into(), "p".into());
    config.env = vec![("Z".to_string(), "1".to_string()), ("A".to_string(), "2".to_string())];
    let config = config.with_env("Z".into(), "3".into());
    assert_eq!(config.env.last(), Some(&("Z".to_string(), "3".to_string())));
}
