//! Tests of what `debug.info`, `debug.getinfo` and `debug.getlocal`
//! report of a frame.
use shingetsu::debug_frames::{
    frame_at_level, frame_current_line, frame_name, frame_source, getinfo, info, local_pick,
    traceback_plan, upvalue_index, DebugFrame, FrameLocation, FunctionSig, InfoValue, LocalPick,
    TracebackFirst, TracebackPlan,
};
use shingetsu::error::LibError;

fn sig(name: &str, source: &str, params: &[Option<&str>], variadic: bool) -> FunctionSig {
    FunctionSig {
        name: name.as_bytes().to_vec(),
        source: source.as_bytes().to_vec(),
        params: params.iter().map(|p| p.map(|s| s.as_bytes().to_vec())).collect(),
        variadic,
        line_defined: 10,
        last_line_defined: 14,
        num_upvalues: 1,
    }
}

fn greet_frame() -> DebugFrame {
    DebugFrame::Lua {
        sig: sig("greet", "script.lua", &[Some("name"), Some("greeting")], false),
        location: Some(FrameLocation { source_name: b"script.lua".to_vec(), line: 12 }),
        locals: 2,
    }
}

fn native() -> DebugFrame {
    DebugFrame::Native { name: b"print".to_vec() }
}

#[test]
fn sources_are_marked() {
    assert_eq!(frame_source(&greet_frame()), b"@script.lua".to_vec());
    let stdin = DebugFrame::Lua {
        sig: sig("f", "", &[], false),
        location: Some(FrameLocation { source_name: b"=stdin".to_vec(), line: 1 }),
        locals: 0,
    };
    assert_eq!(frame_source(&stdin), b"=stdin".to_vec());
    let unknown = DebugFrame::Lua { sig: sig("f", "", &[], false), location: None, locals: 0 };
    assert_eq!(frame_source(&unknown), b"=?".to_vec());
    let file = DebugFrame::Lua { sig: sig("f", "@x.lua", &[], false), location: None, locals: 0 };
    assert_eq!(frame_source(&file), b"@x.lua".to_vec());
    assert_eq!(frame_source(&native()), b"=[Native]".to_vec());
}

#[test]
fn lines_and_names() {
    assert_eq!(frame_current_line(&greet_frame()), 12);
    assert_eq!(frame_current_line(&native()), -1);
    assert_eq!(frame_name(&greet_frame()), Some(b"greet".to_vec()));
    let anon = DebugFrame::Lua { sig: sig("<anonymous>", "a.lua", &[], true), location: None, locals: 0 };
    assert_eq!(frame_name(&anon), None);
    let main = DebugFrame::Lua { sig: sig("main.lua", "main.lua", &[], true), location: None, locals: 0 };
    assert_eq!(frame_name(&main), None);
    assert_eq!(frame_name(&native()), Some(b"print".to_vec()));
}

#[test]
fn info_values_in_option_order() {
    let v = info(&greet_frame(), "slnaf").unwrap();
    assert_eq!(
        v,
        vec![
            InfoValue::Str(b"@script.lua".to_vec()),
            InfoValue::Int(12),
            InfoValue::Str(b"greet".to_vec()),
            InfoValue::Int(2),
            InfoValue::Bool(false),
            InfoValue::Nil,
        ]
    );
    assert_eq!(info(&native(), "a").unwrap(), vec![InfoValue::Int(0), InfoValue::Bool(true)]);
    match info(&greet_frame(), "sx") {
        Err(LibError::ArgError { position, function, msg, .. }) => {
            assert_eq!(position, 2);
            assert_eq!(function, "info");
            assert_eq!(msg, "invalid option 'x'");
        },
        other => panic!("unexpected {:?}", other),
    }
}

#[test]
fn getinfo_fills_the_groups_asked_for() {
    let all = getinfo(&greet_frame(), None, b"script.lua").unwrap();
    assert_eq!(all.name, Some(b"greet".to_vec()));
    assert_eq!(all.namewhat, Some(Vec::new()));
    assert_eq!(all.source, Some(b"@script.lua".to_vec()));
    assert_eq!(all.short_src, Some(b"script.lua".to_vec()));
    assert_eq!((all.linedefined, all.lastlinedefined), (Some(10), Some(14)));
    assert_eq!(all.what, Some(b"Lua".to_vec()));
    assert_eq!(all.currentline, Some(12));
    assert_eq!(all.istailcall, Some(false));
    assert_eq!((all.nups, all.nparams, all.isvararg), (Some(1), Some(2), Some(false)));
    assert!(!all.activelines);

    let lines = getinfo(&greet_frame(), Some("lL"), b"script.lua").unwrap();
    assert_eq!(lines.currentline, Some(12));
    assert!(lines.activelines);
    assert_eq!(lines.source, None);
    assert_eq!(lines.name, None);

    let nat = getinfo(&native(), Some("Su"), b"[Native]").unwrap();
    assert_eq!(nat.what, Some(b"Native".to_vec()));
    assert_eq!((nat.linedefined, nat.nparams, nat.isvararg), (Some(-1), Some(0), Some(true)));

    let main = DebugFrame::Lua { sig: sig("m.lua", "m.lua", &[], true), location: None, locals: 0 };
    assert_eq!(getinfo(&main, Some("S"), b"m.lua").unwrap().what, Some(b"main".to_vec()));

    match getinfo(&greet_frame(), Some("nq"), b"") {
        Err(LibError::ArgError { position, function, msg, .. }) => {
            assert_eq!(position, 2);
            assert_eq!(function, "getinfo");
            assert_eq!(msg, "invalid option 'q'");
        },
        other => panic!("unexpected {:?}", other),
    }
}

#[test]
fn locals_and_parameters() {
    assert_eq!(local_pick(&greet_frame(), 1), LocalPick::Local(0));
    assert_eq!(local_pick(&greet_frame(), 2), LocalPick::Local(1));
    assert_eq!(local_pick(&greet_frame(), 3), LocalPick::NotFound);
    assert_eq!(local_pick(&greet_frame(), 0), LocalPick::NotFound);
    let def = DebugFrame::Lua { sig: sig("f", "a.lua", &[Some("a"), None], false), location: None, locals: 0 };
    assert_eq!(local_pick(&def, 1), LocalPick::Param(b"a".to_vec()));
    assert_eq!(local_pick(&def, 2), LocalPick::NotFound);
    assert_eq!(local_pick(&native(), 1), LocalPick::NotFound);
}

#[test]
fn levels_and_upvalues() {
    assert_eq!(frame_at_level(3, 0), Some(2));
    assert_eq!(frame_at_level(3, 2), Some(0));
    assert_eq!(frame_at_level(3, 3), None);
    assert_eq!(upvalue_index(0), None);
    assert_eq!(upvalue_index(1), Some(0));
}

#[test]
fn traceback_arguments() {
    match traceback_plan(&TracebackFirst::Nil, Some(3)) {
        TracebackPlan::Render { message: None, level } => assert_eq!(level, 3),
        other => panic!("unexpected {:?}", other),
    }
    match traceback_plan(&TracebackFirst::Str(b"checkpoint".to_vec()), None) {
        TracebackPlan::Render { message: Some(m), level } => {
            assert_eq!(m, "checkpoint");
            assert_eq!(level, 1);
        },
        other => panic!("unexpected {:?}", other),
    }
    match traceback_plan(&TracebackFirst::Number(-2), None) {
        TracebackPlan::Render { message: None, level } => assert_eq!(level, 0),
        other => panic!("unexpected {:?}", other),
    }
    assert!(matches!(traceback_plan(&TracebackFirst::Other, Some(2)), TracebackPlan::PassThrough));
}
