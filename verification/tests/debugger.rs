use aether::demo::buggy_demo_program;
use aether::timeline::Timeline;

#[test]
fn records_a_full_trace() {
    let tl = Timeline::record(buggy_demo_program());
    let main = tl.branch(0).unwrap();
    assert_eq!(main.trace.len(), 4);
    // The bug manifests: area = 3 + 4 = 7 (should be 12), scaled = 14.
    assert_eq!(main.trace.last_value("area"), Some(7));
    assert_eq!(main.trace.last_value("scaled"), Some(14));
}

#[test]
fn what_if_branch_propagates_the_fix_forward() {
    let mut tl = Timeline::record(buggy_demo_program());
    let b = tl.fork_what_if(0, 2, "area", 12, "fix: area = w * h");
    let fixed = tl.branch(b).unwrap();
    assert_eq!(fixed.trace.last_value("area"), Some(12));
    assert_eq!(
        fixed.trace.last_value("scaled"),
        Some(24),
        "scaled must re-derive from the intervened area"
    );
    assert_eq!(tl.branch(0).unwrap().trace.last_value("scaled"), Some(14));
}

#[test]
fn divergence_points_at_the_intervened_step() {
    let mut tl = Timeline::record(buggy_demo_program());
    let b = tl.fork_what_if(0, 2, "area", 12, "fix");
    assert_eq!(tl.first_divergence(0, b), Some(2));
}

#[test]
fn untouched_fork_does_not_diverge() {
    let mut tl = Timeline::record(buggy_demo_program());
    let b = tl.fork_what_if(0, 10, "area", 12, "too late");
    assert_eq!(tl.first_divergence(0, b), None);
    assert_eq!(tl.first_divergence(0, 7), None);
    assert_eq!(tl.branches().len(), 2);
}

#[test]
fn earlier_steps_survive_an_intervention() {
    let mut tl = Timeline::record(buggy_demo_program());
    let b = tl.fork_what_if(0, 3, "scaled", 0, "zero");
    let main = tl.branch(0).unwrap();
    let forked = tl.branch(b).unwrap();
    assert_eq!(forked.trace.len(), main.trace.len());
    assert_eq!(forked.trace.last_value("area"), Some(7));
    assert_eq!(forked.trace.last_value("scaled"), Some(0));
    assert_eq!(tl.first_divergence(0, b), Some(3));
}

/// The tracer script as written out by hand, for comparison.
fn expected_script(path: &str, at: Option<(usize, &str, &str)>) -> String {
    let path_repr = serde_json::to_string(path).unwrap();
    let inject = match at {
        None => String::new(),
        Some((at_step, var, val)) => {
            let var_repr = serde_json::to_string(var).unwrap();
            format!(
                "\n    if _seq[0] == {at_step} and {var_repr} in frame.f_locals:\
                 \n        try:\
                 \n            import ctypes as _ct\
                 \n            frame.f_locals[{var_repr}] = {val}\
                 \n            _ct.pythonapi.PyFrame_LocalsToFast(_ct.py_object(frame), _ct.c_int(0))\
                 \n            _intervened = True\
                 \n        except Exception:\
                 \n            pass"
            )
        }
    };
    format!(
        r#"import sys as _sys, json as _json
_steps = []
_seq = [0]

def _tracer(frame, event, arg):
    if event not in ('line', 'call', 'return'):
        return _tracer
    _intervened = False{inject}
    _locs = {{}}
    for _k, _v in frame.f_locals.items():
        if _k.startswith('_'):
            continue
        try:
            _locs[_k] = repr(_v)
        except Exception:
            _locs[_k] = '<err>'
    _steps.append({{
        'seq': _seq[0],
        'file': frame.f_code.co_filename,
        'line': frame.f_lineno,
        'event': event,
        'locals': _locs,
        'intervened': _intervened,
    }})
    _seq[0] += 1
    return _tracer

_path = {path_repr}
with open(_path) as _f:
    _code = compile(_f.read(), _path, 'exec')
_sys.settrace(_tracer)
exec(_code, {{}})
_sys.settrace(None)

for _s in _steps:
    print(_json.dumps(_s))
"#
    )
}

#[test]
fn tracer_script_without_override() {
    let s = aether::pytrace::build_script("/tmp/a \"b\"\\c.py", None);
    assert_eq!(s, expected_script("/tmp/a \"b\"\\c.py", None));
}

#[test]
fn tracer_script_with_override() {
    let o = aether::pytrace::PyOverride { at_step: 12, var: "x\ty".to_string(), val: "[1, 2]".to_string() };
    let s = aether::pytrace::build_script("main.py", Some(&o));
    assert_eq!(s, expected_script("main.py", Some((12, "x\ty", "[1, 2]"))));
    assert!(s.contains("if _seq[0] == 12 and \"x\\ty\" in frame.f_locals:"));
}
