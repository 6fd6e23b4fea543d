//! The projection from the log to the model's history, and the invariants the log keeps.

use pai_harness::session::error::SessionError;
use pai_harness::session::event::{
    AssistantChunk, AssistantMessage, SessionEvent, SessionEventEnvelope, StepEnd, StepStart, ToolCall, ToolResult, TurnEnd,
    TurnEndReason, TurnStart, UnknownEvent, Usage,
};
use pai_harness::session::log::SessionLog;
use pai_harness::session::message::{ContentBlock, Message, Role};
use pai_harness::session::packing::{
    PackedChunks, RowPlan, check_batch, chunk_run, pack_plan, packed_chunks, unpack,
};
use pai_harness::session::session::{
    fork_boundary, fork_request, fork_seed_events, preview, should_flush, turn_to_close, Session,
    PENDING_LIMIT,
};
use pai_harness::session::store::{NoTitle, Origin, SessionHeader};
use pai_harness::session::surface::{Surface, SurfaceOp};

const T: i64 = 1_700_000_000_000;

fn user(text: &str) -> SessionEvent {
    SessionEvent::UserMessage(Message::user(text.to_string()))
}

fn assistant(text: &str) -> SessionEvent {
    SessionEvent::AssistantMessage(AssistantMessage {
        turn: 0,
        step: 0,
        message: Message::assistant(text.to_string()),
        usage: None,
        interrupted: None,
    })
}

fn assistant_rong() -> SessionEvent {
    SessionEvent::AssistantMessage(AssistantMessage {
        turn: 0,
        step: 0,
        message: Message { role: Role::Assistant, content: Vec::new(), source: None },
        usage: Some(Usage { input_tokens: 12, output_tokens: 0, cached_input_tokens: None }),
        interrupted: None,
    })
}

fn texts(messages: &[Message]) -> Vec<String> {
    messages
        .iter()
        .map(|m| match m.content.first() {
            Some(ContentBlock::Text { text }) => text.clone(),
            _ => "<không phải chữ>".to_owned(),
        })
        .collect()
}

#[test]
fn seq_lien_mach_khong_ho() {
    let mut log = SessionLog::new();
    log.append(SessionEvent::TurnStart(TurnStart { turn: 0 }), T).expect("turn/start");
    log.append(SessionEvent::StepStart(StepStart { turn: 0, step: 0 }), T).expect("step/start");
    log.append_surface(user("chào"), T).expect("user/message");
    log.append_surface(assistant("chào lại"), T).expect("assistant/message");
    log.append(SessionEvent::TurnEnd(TurnEnd { turn: 0, reason: TurnEndReason::Completed }), T)
        .expect("turn/end");

    for (index, envelope) in log.events().iter().enumerate() {
        assert_eq!(envelope.seq, index as u64, "seq phải bằng chỉ số");
    }
    assert_eq!(log.next_seq(), 5);
}

#[test]
fn phat_lai_mot_so_co_lo_hong_bi_tu_choi() {
    let mut good = SessionLog::new();
    good.append_surface(user("a"), T).expect("a");
    good.append_surface(user("b"), T).expect("b");

    let mut events = good.events().to_vec();
    events.remove(0);
    match SessionLog::replay(events) {
        Err(SessionError::SeqGap { expected: 0, found: 1 }) => {}
        other => panic!("phải là SeqGap, gặp {:?}", other.err()),
    }
}

#[test]
fn append_thuan_giu_nguyen_thu_tu() {
    let mut log = SessionLog::new();
    log.append_surface(user("a"), T).expect("a");
    log.append_surface(assistant("b"), T).expect("b");
    log.append_surface(user("c"), T).expect("c");

    assert_eq!(texts(&log.derive_messages()), ["a", "b", "c"]);
    assert_eq!(log.surface().generation(), 0, "append không làm đổi thế hệ");
}

#[test]
fn replace_mot_dai_giua_khong_xoa_gi_ca() {
    let mut log = SessionLog::new();
    log.append_surface(user("a"), T).expect("a");
    log.append_surface(assistant("b"), T).expect("b");
    log.append_surface(user("c"), T).expect("c");
    log.append_surface(assistant("d"), T).expect("d");
    assert_eq!(texts(&log.derive_messages()), ["a", "b", "c", "d"]);

    let seq = log.append_replacing(user("<tóm tắt b c>"), 1, 3, T).expect("replace");

    assert_eq!(texts(&log.derive_messages()), ["a", "<tóm tắt b c>", "d"]);
    assert_eq!(log.len(), 5);
    assert_eq!(
        texts(&[log.get(1).and_then(SessionEventEnvelope::message).cloned().expect("b")]),
        ["b"]
    );
    assert_eq!(
        texts(&[log.get(2).and_then(SessionEventEnvelope::message).cloned().expect("c")]),
        ["c"]
    );
    assert_eq!(log.get(seq).expect("replace").source_event_seqs.as_deref(), Some(&[1, 2][..]));
    assert_eq!(log.surface().generation(), 1);
}

#[test]
fn replace_long_nhau_che_ca_ban_tom_tat_truoc() {
    let mut log = SessionLog::new();
    log.append_surface(user("a"), T).expect("a");
    log.append_surface(assistant("b"), T).expect("b");
    log.append_surface(user("c"), T).expect("c");
    log.append_surface(assistant("d"), T).expect("d");
    let first = log.append_replacing(user("<tóm tắt 1>"), 1, 3, T).expect("replace 1");

    let second = log.append_replacing(user("<tóm tắt 2>"), 0, 2, T).expect("replace 2");

    assert_eq!(texts(&log.derive_messages()), ["<tóm tắt 2>", "d"]);
    assert_eq!(
        log.get(second).expect("replace 2").source_event_seqs.as_deref(),
        Some(&[0, first][..]),
        "replace lồng phải kê chính bản tóm tắt mà nó nuốt"
    );
    assert_eq!(log.len(), 6);
    assert_eq!(log.surface().generation(), 2);
}

#[test]
fn message_rong_bi_loai_khoi_lich_su_nhung_van_nam_trong_so() {
    let mut log = SessionLog::new();
    log.append_surface(user("a"), T).expect("a");
    let rong = log.append_surface(assistant_rong(), T).expect("assistant rỗng");
    log.append_surface(user("c"), T).expect("c");

    assert_eq!(texts(&log.derive_messages()), ["a", "c"]);
    assert_eq!(log.surface().nodes().len(), 3, "nó vẫn là một node surface");
    assert_eq!(log.len(), 3, "và vẫn là một dòng trong sổ");
    assert!(log.get(rong).expect("có mặt").message().is_none());
}

#[test]
fn su_kien_surface_bat_buoc_co_surface_op() {
    let mut log = SessionLog::new();
    match log.append(user("a"), T) {
        Err(SessionError::SurfaceOpRequired("user/message")) => {}
        other => panic!("phải đòi surface_op, gặp {:?}", other.err()),
    }
}

#[test]
fn su_kien_log_only_khong_duoc_mang_surface_op() {
    let mut log = SessionLog::new();
    match log.append_surface(SessionEvent::TurnStart(TurnStart { turn: 0 }), T) {
        Err(SessionError::SurfaceOpForbidden(_)) => {}
        other => panic!("phải cấm surface_op, gặp {:?}", other.err()),
    }
}

#[test]
fn replace_ngoai_pham_vi_bi_tu_choi() {
    let mut log = SessionLog::new();
    log.append_surface(user("a"), T).expect("a");
    match log.append_replacing(user("x"), 0, 5, T) {
        Err(SessionError::SurfaceRangeOutOfBounds { start: 0, end: 5, len: 1 }) => {}
        other => panic!("phải là SurfaceRangeOutOfBounds, gặp {:?}", other.err()),
    }
    assert_eq!(log.len(), 1, "yêu cầu hỏng không được để lại vết trong sổ");
}

#[test]
fn replace_khong_ke_du_node_bi_che_bi_tu_choi() {
    let mut surface = Surface::default();
    surface.apply(0, SurfaceOp::Append, None).expect("node 0");
    surface.apply(1, SurfaceOp::Append, None).expect("node 1");

    match surface.apply(2, SurfaceOp::Replace { start: 0, end: 2 }, Some(&[0])) {
        Err(SessionError::UncitedShadow { missing }) => assert_eq!(missing, vec![1]),
        other => panic!("phải là UncitedShadow, gặp {:?}", other.err()),
    }
}

#[test]
fn tool_result_la_surface_con_tool_call_thi_khong() {
    let call = SessionEvent::ToolCall(ToolCall {
        turn: 0,
        step: 0,
        call_id: "c1".into(),
        name: "read".into(),
        arguments: r#"{"file_path":"a.rs"}"#.into(),
    });
    let result = SessionEvent::ToolResult(ToolResult {
        turn: 0,
        step: 0,
        call_id: "c1".into(),
        message: Message {
            role: Role::Tool,
            content: vec![ContentBlock::ToolResult { call_id: "c1".into(), content: "…".into(), is_error: false }],
            source: None,
        },
        error: None,
        meta: None,
    });
    assert!(!call.is_surface());
    assert!(result.is_surface());
}

#[test]
fn a_built_log_replays_to_the_same_history() {
    let mut log = SessionLog::new();
    log.append_surface(user("a"), T).expect("a");
    log.append_surface(assistant("b"), T).expect("b");
    log.append_replacing(user("<tóm tắt>"), 0, 2, T).expect("replace");
    log.append_surface(user("c"), T).expect("c");

    let replayed = SessionLog::replay(log.events().to_vec()).expect("replays");
    assert_eq!(replayed.len(), log.len());
    assert_eq!(replayed.surface().nodes(), log.surface().nodes());
    assert_eq!(replayed.surface().generation(), log.surface().generation());
    assert_eq!(texts(&replayed.derive_messages()), ["<tóm tắt>", "c"]);
    for seq in log.surface().nodes() {
        assert!((*seq as usize) < log.len());
    }
}

#[test]
fn open_turn_is_found_from_the_boundary_back() {
    let mut log = SessionLog::new();
    assert_eq!(log.open_turn_at(0), None);
    log.append(SessionEvent::TurnStart(TurnStart { turn: 7 }), T).expect("turn/start");
    log.append_surface(user("a"), T).expect("a");
    assert_eq!(log.open_turn_at(1), Some(7));
    log.append(SessionEvent::TurnEnd(TurnEnd { turn: 7, reason: TurnEndReason::Completed }), T).expect("turn/end");
    assert_eq!(log.open_turn_at(99), None);
    assert_eq!(log.open_turn_at(1), Some(7));
}

fn header(id: &str) -> SessionHeader {
    SessionHeader {
        id: id.to_string(),
        format_version: 1,
        created_at: T,
        updated_at: T,
        title: None,
        cwd: Some("/tmp/du-an".to_string()),
        parent_session: None,
        seed_length: None,
        origin: Some(Origin::Subagent),
        delegation_depth: Some(2),
        agent_preset: Some("planner".to_string()),
    }
}

fn chunk() -> SessionEvent {
    SessionEvent::AssistantChunk(AssistantChunk { turn: 0, step: 0, chunk: serde_json::Value::Null })
}

#[test]
fn stream_chunks_wait_until_the_limit() {
    let mut session = Session::new(header("s1"), SessionLog::new());
    for n in 1..PENDING_LIMIT {
        let (seq, due) = session.append_at(chunk(), T).expect("chunk");
        assert_eq!(seq, (n - 1) as u64);
        assert!(!due, "chunk {n} may wait");
        assert_eq!(session.pending().len(), n);
    }
    let (_, due) = session.append_at(chunk(), T).expect("chunk");
    assert!(due, "the hundredth waiting chunk forces a write");
    assert_eq!(session.pending().len(), PENDING_LIMIT);
    session.flushed();
    assert!(session.pending().is_empty());
    assert_eq!(session.log().len(), PENDING_LIMIT);
}

#[test]
fn any_other_event_is_written_at_once() {
    let mut session = Session::new(header("s2"), SessionLog::new());
    let (_, due) = session.append_at(chunk(), T).expect("chunk");
    assert!(!due);
    let (seq, due) = session.append_surface_at(user("a"), T).expect("user");
    assert_eq!(seq, 1);
    assert!(due);
    let pending: Vec<u64> = session.pending().iter().map(|e| e.seq).collect();
    assert_eq!(pending, [0, 1]);
    assert!(should_flush(&user("b"), 0));
    assert!(!should_flush(&chunk(), PENDING_LIMIT - 1));
    assert!(should_flush(&chunk(), PENDING_LIMIT));
}

#[test]
fn a_refused_append_stages_nothing() {
    let mut session = Session::new(header("s3"), SessionLog::new());
    assert!(matches!(session.append_at(user("a"), T), Err(SessionError::SurfaceOpRequired(_))));
    assert!(matches!(
        session.append_surface_at(SessionEvent::TurnStart(TurnStart { turn: 0 }), T),
        Err(SessionError::SurfaceOpForbidden(_))
    ));
    assert!(matches!(
        session.append_replacing_at(user("x"), 0, 1, T),
        Err(SessionError::SurfaceRangeOutOfBounds { start: 0, end: 1, len: 0 })
    ));
    assert!(session.pending().is_empty());
    assert_eq!(session.log().len(), 0);
}

#[test]
fn replacing_through_the_session_shadows_and_stages() {
    let mut session = Session::new(header("s4"), SessionLog::new());
    session.append_surface_at(user("a"), T).expect("a");
    session.append_surface_at(assistant("b"), T).expect("b");
    session.flushed();
    let (seq, due) = session.append_replacing_at(user("<tóm tắt>"), 0, 2, T).expect("replace");
    assert_eq!(seq, 2);
    assert!(due);
    assert_eq!(session.pending().len(), 1);
    assert_eq!(texts(&session.derive_messages()), ["<tóm tắt>"]);
}

#[test]
fn a_title_lives_in_the_header() {
    let mut session = Session::new(header("s5"), SessionLog::new());
    session.set_title("Tiêu đề".to_string());
    assert_eq!(session.header().title.as_deref(), Some("Tiêu đề"));
    assert_eq!(session.id(), "s5");
    assert_eq!(session.log().len(), 0);
}

#[test]
fn reopening_closes_the_turn_a_crash_left_open() {
    let mut log = SessionLog::new();
    assert_eq!(turn_to_close(&log), None);
    log.append(SessionEvent::TurnStart(TurnStart { turn: 3 }), T).expect("turn/start");
    log.append_surface(user("a"), T).expect("a");
    assert_eq!(turn_to_close(&log), Some(3));
    log.append(SessionEvent::TurnEnd(TurnEnd { turn: 3, reason: TurnEndReason::Interrupted }), T)
        .expect("turn/end");
    assert_eq!(turn_to_close(&log), None);
}

#[test]
fn a_fork_boundary_is_never_rounded() {
    let empty = SessionLog::new();
    assert!(matches!(
        fork_boundary(&empty, None),
        Err(SessionError::InvalidBoundary { boundary: 0, .. })
    ));
    assert!(matches!(
        fork_boundary(&empty, Some(4)),
        Err(SessionError::InvalidBoundary { boundary: 4, .. })
    ));

    let mut log = SessionLog::new();
    log.append(SessionEvent::TurnStart(TurnStart { turn: 0 }), T).expect("turn/start");
    log.append_surface(user("a"), T).expect("a");
    log.append(SessionEvent::TurnEnd(TurnEnd { turn: 0, reason: TurnEndReason::Completed }), T)
        .expect("turn/end");
    log.append(SessionEvent::TurnStart(TurnStart { turn: 1 }), T).expect("turn/start");

    assert!(matches!(
        fork_boundary(&log, Some(4)),
        Err(SessionError::InvalidBoundary { boundary: 4, .. })
    ));
    assert!(matches!(fork_boundary(&log, Some(1)), Err(SessionError::OpenTurn { boundary: 1, turn: 0 })));
    assert!(matches!(fork_boundary(&log, None), Err(SessionError::OpenTurn { boundary: 3, turn: 1 })));
    assert_eq!(fork_boundary(&log, Some(2)).expect("closed turn"), 2);
}

#[test]
fn a_fork_inherits_the_prefix_and_the_lineage() {
    let mut log = SessionLog::new();
    log.append_surface(user("a"), T).expect("a");
    log.append_surface(assistant("b"), T).expect("b");
    log.append_surface(user("c"), T).expect("c");

    let seed = fork_seed_events(&log, 1);
    let seqs: Vec<u64> = seed.iter().map(|e| e.seq).collect();
    assert_eq!(seqs, [0, 1]);
    let child = SessionLog::replay(seed.to_vec()).expect("seed replays");
    assert_eq!(texts(&child.derive_messages()), ["a", "b"]);
    assert_eq!(child.next_seq(), 2);

    let parent = header("cha");
    let request = fork_request(&parent, "cha", 1);
    assert_eq!(request.id, None);
    assert_eq!(request.cwd.as_deref(), Some("/tmp/du-an"));
    assert_eq!(request.parent_session.as_deref(), Some("cha"));
    assert_eq!(request.seed_length, Some(2));
    assert_eq!(request.origin, Some(Origin::Subagent));
    assert_eq!(request.delegation_depth, Some(2));
    assert_eq!(request.agent_preset.as_deref(), Some("planner"));
}

#[test]
fn a_preview_is_one_trimmed_line_of_at_most_160_characters() {
    let short = Message::user("  xin chào\nbạn  ".to_string());
    assert_eq!(preview(&short).as_deref(), Some("xin chào bạn"));

    let blank = Message::user(" \n\t ".to_string());
    assert_eq!(preview(&blank), None);

    let long = Message::user("ă".repeat(200));
    let shown = preview(&long).expect("long");
    assert_eq!(shown.chars().count(), 161);
    assert!(shown.ends_with('…'));
    assert_eq!(shown, format!("{}…", "ă".repeat(160)));

    let exact = Message::user("a".repeat(160));
    assert_eq!(preview(&exact), Some("a".repeat(160)));

    let mixed = Message {
        role: Role::Assistant,
        content: vec![
            ContentBlock::Text { text: "một".into() },
            ContentBlock::ToolCall { id: "c".into(), name: "bash".into(), arguments: "{}".into() },
            ContentBlock::Text { text: "hai\r\nba".into() },
        ],
        source: None,
    };
    assert_eq!(preview(&mixed).as_deref(), Some("một hai  ba"));

    let tools_only = Message {
        role: Role::Assistant,
        content: vec![ContentBlock::ToolCall { id: "c".into(), name: "bash".into(), arguments: "{}".into() }],
        source: None,
    };
    assert_eq!(preview(&tools_only), None);
}

fn envelope(seq: u64, time: i64, event: SessionEvent) -> SessionEventEnvelope {
    SessionEventEnvelope { seq, time, event, ignorable: None, source_event_seqs: None, surface_op: None }
}

fn text_chunk(turn: u64, step: u64, text: &str) -> SessionEvent {
    SessionEvent::AssistantChunk(AssistantChunk { turn, step, chunk: serde_json::Value::String(text.to_string()) })
}

#[test]
fn nhieu_manh_stream_di_chung_mot_hang() {
    let mut events = vec![envelope(0, T, SessionEvent::TurnStart(TurnStart { turn: 0 }))];
    for i in 0..300u64 {
        events.push(envelope(1 + i, T + (i as i64) * 7 - 3, text_chunk(0, 0, &format!("t{i}"))));
    }
    let mut answer = envelope(301, T + 5000, assistant("xong"));
    answer.surface_op = Some(SurfaceOp::Append);
    events.push(answer);
    events.push(envelope(302, T + 5001, SessionEvent::TurnEnd(TurnEnd { turn: 0, reason: TurnEndReason::Completed })));

    let rows = pack_plan(&events);
    assert_eq!(rows, vec![RowPlan::Plain(0), RowPlan::Packed(1, 300), RowPlan::Plain(301), RowPlan::Plain(302)]);

    // Unpacking must reproduce every seq and every timestamp exactly.
    let packed = packed_chunks(&events[1..301]).expect("packs");
    assert_eq!(packed.dt.len(), 299);
    let reopened = unpack(1, events[1].time, packed).expect("opens");
    assert_eq!(reopened.len(), 300);
    for (before, after) in events[1..301].iter().zip(&reopened) {
        assert_eq!(before, after);
    }
}

#[test]
fn a_flag_a_gap_or_another_step_breaks_a_run() {
    let mut events = vec![
        envelope(0, T, text_chunk(0, 0, "a")),
        envelope(1, T, text_chunk(0, 0, "b")),
        envelope(2, T, text_chunk(0, 1, "c")),
        envelope(3, T, text_chunk(0, 1, "d")),
        envelope(5, T, text_chunk(0, 1, "e")),
        envelope(6, T, text_chunk(0, 1, "f")),
        envelope(7, T, text_chunk(0, 1, "g")),
    ];
    events[6].ignorable = Some(true);
    assert_eq!(chunk_run(&events, 0), 2);
    assert_eq!(chunk_run(&events, 2), 2);
    assert_eq!(chunk_run(&events, 6), 0);
    assert_eq!(
        pack_plan(&events),
        vec![RowPlan::Packed(0, 2), RowPlan::Packed(2, 2), RowPlan::Packed(4, 2), RowPlan::Plain(6)]
    );
    assert!(pack_plan(&[]).is_empty());
}

#[test]
fn a_packed_row_of_the_wrong_shape_is_loud() {
    let broken = PackedChunks {
        turn: 0,
        step: 0,
        dt: vec![1, 2],
        chunks: vec![serde_json::Value::Null, serde_json::Value::Null],
    };
    match unpack(40, T, broken) {
        Err(SessionError::Unavailable(why)) => {
            assert_eq!(why, "hàng gói tại seq 40 có 2 mảnh nhưng 2 khoảng thời gian");
        }
        other => panic!("phải là lỗi hình dạng, gặp {:?}", other.err()),
    }
    let empty = PackedChunks { turn: 0, step: 0, dt: vec![9], chunks: Vec::new() };
    assert!(unpack(0, T, empty).expect("empty").is_empty());
    let mixed = [envelope(0, T, text_chunk(0, 0, "a")), envelope(1, T, user("b"))];
    assert!(matches!(packed_chunks(&mixed), Err(SessionError::Unavailable(why)) if why == "gói nhầm loại sự kiện"));
}

#[test]
fn lo_ghi_lech_seq_bi_tu_choi() {
    let lech = envelope(4, 0, SessionEvent::TurnStart(TurnStart { turn: 0 }));
    match check_batch(0, &[lech]) {
        Err(SessionError::SeqGap { expected: 0, found: 4 }) => {}
        other => panic!("phải là SeqGap, gặp {:?}", other.err()),
    }
}

#[test]
fn a_batch_continues_the_stored_log_without_a_gap() {
    let batch = [envelope(3, T, user("a")), envelope(4, T, user("b")), envelope(6, T, user("c"))];
    assert!(matches!(check_batch(3, &batch), Err(SessionError::SeqGap { expected: 5, found: 6 })));
    assert!(check_batch(3, &batch[..2]).is_ok());
    assert!(check_batch(9, &[]).is_ok());
}

#[test]
fn every_error_reads_as_the_user_sees_it() {
    assert_eq!(SessionError::NotFound("s1".into()).describe(), "không tìm thấy phiên `s1`");
    assert_eq!(SessionError::AlreadyExists("s1".into()).describe(), "phiên `s1` đã tồn tại");
    assert_eq!(
        SessionError::InvalidBoundary { boundary: 9, reason: "vượt quá sự kiện cuối của phiên nguồn" }.describe(),
        "ranh giới fork 9 không hợp lệ: vượt quá sự kiện cuối của phiên nguồn"
    );
    assert_eq!(
        SessionError::OpenTurn { boundary: 4, turn: 1 }.describe(),
        "ranh giới 4 nằm giữa lượt 1 đang mở (có turn/start, chưa có turn/end)"
    );
    assert_eq!(
        SessionError::SurfaceRangeOutOfBounds { start: 1, end: 5, len: 3 }.describe(),
        "dải replace 1..5 nằm ngoài 3 node surface hiện có"
    );
    assert_eq!(
        SessionError::UncitedShadow { missing: vec![3, 14] }.describe(),
        "replace phải kê mọi node bị che trong source_event_seqs; thiếu [3, 14]"
    );
    assert_eq!(SessionError::SeqGap { expected: 0, found: 4 }.describe(), "seq không liền mạch: chờ 0, gặp 4");
    assert_eq!(
        SessionError::NotOurStore { found: 0x7061_6931 }.describe(),
        format!("tệp này không phải kho phiên của pai (application_id={:#x})", 0x7061_6931)
    );
    assert_eq!(
        SessionError::NotOurStore { found: -1 }.describe(),
        format!("tệp này không phải kho phiên của pai (application_id={:#x})", -1i32)
    );
    assert_eq!(
        SessionError::SchemaVersion { found: -2, expected: 1 }.describe(),
        "kho phiên ở schema v-2, bản này nói v1"
    );
    assert_eq!(SessionError::Unavailable("khoá hỏng".into()).describe(), "kho phiên không dùng được nữa: khoá hỏng");
    let codec = serde_json::from_str::<serde_json::Value>("{").unwrap_err();
    let shown = codec.to_string();
    assert_eq!(SessionError::Json(codec).describe(), format!("dữ liệu sự kiện không hợp lệ: {shown}"));
}

#[test]
fn an_append_without_a_time_is_stamped_by_the_clock() {
    let mut session = Session::new(header("s6"), SessionLog::new());
    let (seq, due) = session.append(SessionEvent::TurnStart(TurnStart { turn: 0 })).expect("turn/start");
    assert_eq!(seq, 0);
    assert!(due);
    session.append_surface(user("a")).expect("a");
    session.append_replacing(user("<tóm tắt>"), 0, 1).expect("replace");
    let events = session.log().events();
    assert_eq!(events.len(), 3);
    assert!(events.iter().all(|e| e.time > T), "the clock reads after 2023");
    assert_eq!(texts(&session.derive_messages()), ["<tóm tắt>"]);
}

fn mot_luot(session: &mut Session, turn: u64, hoi: &str, dap: &str) {
    session.append_at(SessionEvent::TurnStart(TurnStart { turn }), T).expect("turn/start");
    session.append_at(SessionEvent::StepStart(StepStart { turn, step: 0 }), T).expect("step/start");
    session.append_surface_at(user(hoi), T).expect("hỏi");
    for word in dap.split(' ') {
        session.append_at(text_chunk(turn, 0, word), T).expect("mảnh");
    }
    session.append_surface_at(assistant(dap), T).expect("đáp");
    session.append_at(SessionEvent::StepEnd(StepEnd { turn, step: 0 }), T).expect("step/end");
    session
        .append_at(SessionEvent::TurnEnd(TurnEnd { turn, reason: TurnEndReason::Completed }), T)
        .expect("turn/end");
}

#[test]
fn fork_cam_cat_giua_mot_luot_dang_mo() {
    let mut session = Session::new(header("nguon"), SessionLog::new());
    mot_luot(&mut session, 0, "một", "hai");
    // The second turn is left open: turn/start with no turn/end.
    session.append_at(SessionEvent::TurnStart(TurnStart { turn: 1 }), T).expect("turn/start");
    session.append_surface_at(user("ba"), T).expect("ba");
    session.flushed();

    let boundary = session.log().next_seq() - 1;
    match fork_boundary(session.log(), Some(boundary)) {
        Err(SessionError::OpenTurn { turn: 1, .. }) => {}
        other => panic!("phải là OpenTurn, gặp {:?}", other.err()),
    }
}

#[test]
fn fork_tai_ranh_gioi_dong_thi_ke_thua_hat_giong() {
    let mut parent = header("cha");
    parent.cwd = Some("/tmp/repo".to_string());
    let mut session = Session::new(parent, SessionLog::new());
    mot_luot(&mut session, 0, "một", "hai");
    mot_luot(&mut session, 1, "ba", "bốn");
    session.flushed();

    let cuoi_luot_dau = session
        .log()
        .events()
        .iter()
        .find(|e| matches!(&e.event, SessionEvent::TurnEnd(t) if t.turn == 0))
        .expect("turn/end của lượt đầu")
        .seq;

    let boundary = fork_boundary(session.log(), Some(cuoi_luot_dau)).expect("fork");
    let request = fork_request(session.header(), session.id(), boundary);
    let child = SessionLog::replay(fork_seed_events(session.log(), boundary).to_vec()).expect("seed");
    assert_eq!(request.parent_session.as_deref(), Some(session.id()));
    assert_eq!(request.seed_length, Some(cuoi_luot_dau + 1));
    assert_eq!(request.cwd.as_deref(), Some("/tmp/repo"), "kế thừa thư mục");
    assert_eq!(child.len() as u64, cuoi_luot_dau + 1);
    // The seed keeps its seqs, so new events continue rather than being renumbered.
    assert_eq!(child.next_seq(), cuoi_luot_dau + 1);
    assert_eq!(
        child.derive_messages(),
        session.derive_messages()[..2].to_vec(),
        "phiên con thấy đúng phần lịch sử trước ranh giới"
    );
}

#[test]
fn fork_ranh_gioi_qua_xa_bao_loi_chu_khong_lam_tron() {
    let mut session = Session::new(header("nguon"), SessionLog::new());
    mot_luot(&mut session, 0, "một", "hai");
    session.flushed();
    match fork_boundary(session.log(), Some(9_999)) {
        Err(SessionError::InvalidBoundary { boundary: 9_999, .. }) => {}
        other => panic!("phải là InvalidBoundary, gặp {:?}", other.err()),
    }
}

#[test]
fn luot_mo_coi_duoc_dong_lai_chu_khong_bi_cat_cut() {
    let mut session = Session::new(header("nguon"), SessionLog::new());
    session.append_at(SessionEvent::TurnStart(TurnStart { turn: 0 }), T).expect("turn/start");
    session.append_surface_at(user("dở dang"), T).expect("hỏi");
    session.flushed();
    let truoc = session.log().len();

    // Reopened after the crash: replay what was stored, then heal.
    let stored = session.log().events().to_vec();
    let mut healed = Session::new(header("nguon"), SessionLog::replay(stored).expect("phát lại"));
    healed.heal_open_turn().expect("đóng lượt").expect("có lượt mở");
    assert_eq!(healed.log().len(), truoc + 1, "ghi thêm, không cắt cụt");
    match &healed.log().events()[truoc].event {
        SessionEvent::TurnEnd(t) => {
            assert_eq!(t.turn, 0);
            assert_eq!(t.reason, TurnEndReason::Interrupted);
        }
        other => panic!("phải là turn/end interrupted, gặp {other:?}"),
    }
    assert_eq!(healed.pending().len(), 1, "the closing event waits for the next write");
    // Once closed, forking at the end of the log is valid again.
    fork_boundary(healed.log(), None).expect("fork sau khi đã đóng");
    assert_eq!(healed.heal_open_turn().expect("nothing open"), None);
}

#[test]
fn dong_phu_lay_cau_cuoi_cung_va_bo_qua_phien_chua_noi_gi() {
    let mut noisy = Session::new(header("noisy"), SessionLog::new());
    for text in ["câu đầu", "câu giữa", "câu cuối cùng"] {
        noisy.append_surface_at(user(text), T).expect("ghi được");
    }
    let last = noisy.log().events().last().and_then(SessionEventEnvelope::message).expect("message");
    assert_eq!(preview(last).as_deref(), Some("câu cuối cùng"));
    // A session with nothing said has no message to preview at all.
    let quiet = Session::new(header("quiet"), SessionLog::new());
    assert!(quiet.log().events().iter().all(|e| e.message().is_none()));
}

#[test]
fn dong_phu_cat_cau_dai_va_lam_phang_xuong_dong() {
    let long = format!("dòng một\ndòng hai {}", "x".repeat(300));
    let line = preview(&Message::user(long)).expect("có dòng phụ");
    // Truncate in the store, not the UI: a long answer per row is bandwidth spent on text cut at render time.
    assert!(line.chars().count() <= 161, "dài {} ký tự", line.chars().count());
    assert!(line.ends_with('…'));
    assert!(!line.contains('\n'), "xuống dòng làm vỡ hàng một dòng: {line:?}");
}

#[test]
fn loai_su_kien_la_khong_ignorable_thi_tu_choi_ca_so() {
    // A newer build wrote a type this one does not know, without declaring it skippable.
    let mut data = serde_json::Map::new();
    data.insert("summary".to_string(), serde_json::Value::String("…".to_string()));
    let event = SessionEvent::Unknown(UnknownEvent {
        kind: "compaction/summary".into(),
        data: serde_json::Value::Object(data),
    });
    match SessionEventEnvelope::from_parts(0, 0, event, None, None, None) {
        Err(SessionError::FormatUnsupported(kind)) => assert_eq!(kind, "compaction/summary"),
        other => panic!("phải từ chối, gặp {:?}", other.err().map(|e| e.describe())),
    }
}

#[test]
fn loai_su_kien_la_co_the_bo_qua_thi_doc_duoc() {
    let mut data = serde_json::Map::new();
    data.insert("ms".to_string(), serde_json::Value::from(3));
    let tu_tuong_lai = SessionEventEnvelope {
        seq: 0,
        time: 7,
        event: SessionEvent::Unknown(UnknownEvent { kind: "telemetry/ping".into(), data: serde_json::Value::Object(data) }),
        ignorable: Some(true),
        source_event_seqs: None,
        surface_op: None,
    };
    let read = SessionEventEnvelope::from_parts(
        tu_tuong_lai.seq,
        tu_tuong_lai.time,
        tu_tuong_lai.event.clone(),
        tu_tuong_lai.ignorable,
        None,
        None,
    )
    .expect("đọc được");
    assert_eq!(read, tu_tuong_lai, "giữ nguyên văn để ghi lại được");
    let reopened = SessionLog::replay(vec![read]).expect("phát lại");
    assert!(reopened.derive_messages().is_empty());
}

#[test]
fn seam_tieu_de_co_dung_mot_provider_va_no_tra_none() {
    assert_eq!(NoTitle.title(), None);
}

#[test]
fn replay_names_the_first_envelope_out_of_place() {
    let mut good = SessionLog::new();
    good.append_surface(user("a"), T).expect("a");
    good.append_surface(user("b"), T).expect("b");
    good.append_surface(user("c"), T).expect("c");
    let mut events = good.events().to_vec();
    events.remove(1);
    match SessionLog::replay(events) {
        Err(SessionError::SeqGap { expected: 1, found: 2 }) => {}
        other => panic!("phải là SeqGap, gặp {:?}", other.err()),
    }
}
