//! GPU support that does not need the device: the errors that GPU work
//! reports, and the translation of simple Rust expressions into WGSL
//! compute kernels.

use vstd::prelude::*;
use crate::text::{
    occurs_at_exec, append_chars, chars_of, find_first, first_occurrence, lemma_find_from, replace_all, replace_chars,
    string_of, law_replace_without_occurrence, lemma_replace_not_longer, lemma_first_char_absent, occurs_at,
    find_from, lemma_replace_after_prefix, lemma_replace_leading_occurrence,
};

verus! {

/// GPU computation errors
#[derive(Debug)]
pub enum GpuError {
    /// GPU device or adapter initialization failed
    InitializationFailed(String),
    /// WGSL shader compilation or validation failed
    ShaderCompilationFailed(String),
    /// GPU buffer creation or allocation failed
    BufferCreationFailed(String),
    /// Compute kernel execution failed
    ComputeExecutionFailed(String),
    /// Data transfer between GPU and CPU failed
    DataTransferFailed(String),
}

/// The text that describes a GPU error.
pub open spec fn gpu_error_text(e: GpuError) -> Seq<char> {
    match e {
        GpuError::InitializationFailed(m) => "GPU device initialization failed: "@ + m@,
        GpuError::ShaderCompilationFailed(m) => "Shader compilation failed: "@ + m@,
        GpuError::BufferCreationFailed(m) => "Buffer creation failed: "@ + m@,
        GpuError::ComputeExecutionFailed(m) => "Compute execution failed: "@ + m@,
        GpuError::DataTransferFailed(m) => "Data transfer failed: "@ + m@,
    }
}

impl GpuError {
    /// The text that describes this error.
    pub fn message(&self) -> (text: String)
        ensures
            text@ == gpu_error_text(*self),
    {
        let (head, detail) = match self {
            GpuError::InitializationFailed(m) => ("GPU device initialization failed: ", m),
            GpuError::ShaderCompilationFailed(m) => ("Shader compilation failed: ", m),
            GpuError::BufferCreationFailed(m) => ("Buffer creation failed: ", m),
            GpuError::ComputeExecutionFailed(m) => ("Compute execution failed: ", m),
            GpuError::DataTransferFailed(m) => ("Data transfer failed: ", m),
        };
        let mut text = String::from_str(head);
        text.append(detail.as_str());
        text
    }
}

/// Scanning back from position `j` (exclusive) with `depth` closing
/// brackets still open, the position of the opening bracket that matches.
pub open spec fn matching_open(s: Seq<char>, j: int, depth: nat) -> Option<int>
    decreases j,
{
    if j <= 0 {
        None
    } else if s[j - 1] == ')' {
        matching_open(s, j - 1, depth + 1)
    } else if s[j - 1] == '(' {
        if depth == 0 {
            Some(j - 1)
        } else {
            matching_open(s, j - 1, (depth - 1) as nat)
        }
    } else {
        matching_open(s, j - 1, depth)
    }
}

/// The text of a call of method `m` with no arguments: `.m()`.
pub open spec fn method_pattern(m: Seq<char>) -> Seq<char> {
    seq!['.'] + m + seq!['(', ')']
}

/// One rewrite of `(expr).m()` into `m(expr)`, at the first place where
/// `.m()` occurs; `None` when `.m()` does not occur or does not follow a
/// bracketed expression there.
pub open spec fn rewrite_method_call(s: Seq<char>, m: Seq<char>) -> Option<Seq<char>> {
    let pat = method_pattern(m);
    match first_occurrence(s, pat) {
        Some(p) => if 0 < p && p + pat.len() <= s.len() && s[p - 1] == ')' {
            match matching_open(s, p - 1, 0) {
                Some(q) => if 0 <= q < p - 1 {
                    Some(s.take(q) + m + seq!['('] + s.subrange(q + 1, p - 1) + seq![')'] + s.skip(p + pat.len()))
                } else {
                    None
                },
                None => None,
            }
        } else {
            None
        },
        None => None,
    }
}

/// `s` after rewriting `(expr).m()` into `m(expr)` for as long as the first
/// `.m()` follows a bracketed expression.
pub open spec fn method_calls_rewritten(s: Seq<char>, m: Seq<char>) -> Seq<char>
    decreases s.len(),
{
    match rewrite_method_call(s, m) {
        Some(t) => if t.len() < s.len() {
            method_calls_rewritten(t, m)
        } else {
            s
        },
        None => s,
    }
}

/// A rewrite makes the text three characters shorter.
pub proof fn lemma_rewrite_shortens(s: Seq<char>, m: Seq<char>)
    requires
        rewrite_method_call(s, m) is Some,
    ensures
        rewrite_method_call(s, m)->0.len() == s.len() - 3,
{
}

/// Position of the opening bracket that matches the closing bracket at `close`.
fn find_matching_open(s: &Vec<char>, close: usize) -> (r: Option<usize>)
    requires
        close < s@.len(),
    ensures
        r matches Some(q) ==> matching_open(s@, close as int, 0) == Some(q as int),
        r is None ==> matching_open(s@, close as int, 0) is None,
{
    let mut k: usize = close;
    let mut depth: usize = 0;
    while k > 0
        invariant
            k <= close < s@.len(),
            depth <= close - k,
            matching_open(s@, close as int, 0) == matching_open(s@, k as int, depth as nat),
        decreases k,
    {
        let c = s[k - 1];
        if c == ')' {
            depth = depth + 1;
        } else if c == '(' {
            if depth == 0 {
                return Some(k - 1);
            }
            depth = depth - 1;
        }
        k = k - 1;
    }
    None
}

/// Appends `src[from..to]` to `v`.
fn append_range(v: &mut Vec<char>, src: &Vec<char>, from: usize, to: usize)
    requires
        from <= to <= src@.len(),
    ensures
        final(v)@ == old(v)@ + src@.subrange(from as int, to as int),
{
    let ghost start = v@;
    let mut k = from;
    while k < to
        invariant
            from <= k <= to <= src@.len(),
            v@ == start + src@.subrange(from as int, k as int),
        decreases to - k,
    {
        proof {
            assert(src@.subrange(from as int, k + 1) =~= src@.subrange(from as int, k as int).push(src@[k as int]));
        }
        v.push(src[k]);
        k = k + 1;
    }
}

/// Rewrites method calls on bracketed expressions into function calls:
/// `(expression).method()` becomes `method(expression)`, repeatedly, until
/// the first `.method()` no longer follows a bracketed expression.
pub fn handle_method_calls(expr: &str, method_name: &str) -> (result: String)
    ensures
        result@ == method_calls_rewritten(expr@, method_name@),
{
    let rewritten = rewrite_calls(chars_of(expr), method_name);
    string_of(&rewritten)
}

/// `text` with `(expression).method()` rewritten into `method(expression)`
/// as `handle_method_calls` does it.
fn rewrite_calls(text: Vec<char>, method_name: &str) -> (out: Vec<char>)
    ensures
        out@ == method_calls_rewritten(text@, method_name@),
{
    let ghost expr = text@;
    let m = chars_of(method_name);
    let mut pat: Vec<char> = Vec::new();
    pat.push('.');
    append_chars(&mut pat, &m);
    pat.push('(');
    pat.push(')');
    proof {
        assert(pat@ =~= method_pattern(m@));
    }
    let mut cur = text;
    loop
        invariant
            pat@ == method_pattern(m@),
            m@ == method_name@,
            method_calls_rewritten(cur@, m@) == method_calls_rewritten(expr, m@),
        ensures
            method_calls_rewritten(expr, m@) == cur@,
        decreases cur@.len(),
    {
        let found = find_first(&cur, &pat);
        let p = match found {
            Some(p) => p,
            None => {
                proof {
                    assert(rewrite_method_call(cur@, m@) is None);
                }
                break;
            },
        };
        proof {
            lemma_find_from(cur@, pat@, 0);
        }
        if p == 0 || cur[p - 1] != ')' {
            proof {
                assert(rewrite_method_call(cur@, m@) is None);
            }
            break;
        }
        let q = match find_matching_open(&cur, p - 1) {
            Some(q) => q,
            None => {
                proof {
                    assert(rewrite_method_call(cur@, m@) is None);
                }
                break;
            },
        };
        assert(p + pat@.len() <= cur@.len());
        let n = cur.len();
        proof {
            assert(q < p - 1) by {
                lemma_matching_open_before(cur@, (p - 1) as int, 0);
            }
        }
        let mut next: Vec<char> = Vec::new();
        append_range(&mut next, &cur, 0, q);
        append_chars(&mut next, &m);
        next.push('(');
        append_range(&mut next, &cur, q + 1, p - 1);
        next.push(')');
        append_range(&mut next, &cur, p + pat.len(), n);
        proof {
            let s = cur@;
            assert(s.subrange(0, q as int) =~= s.take(q as int));
            assert(s.subrange(p + pat@.len(), s.len() as int) =~= s.skip(p + pat@.len()));
            assert(next@ =~= s.take(q as int) + m@ + seq!['('] + s.subrange(q + 1, p - 1) + seq![')'] + s.skip(p + pat@.len()));
            lemma_rewrite_shortens(s, m@);
        }
        cur = next;
    }
    cur
}

/// A matching opening bracket lies before the position the scan starts from.
proof fn lemma_matching_open_before(s: Seq<char>, j: int, depth: nat)
    ensures
        matching_open(s, j, depth) matches Some(q) ==> 0 <= q < j,
    decreases j,
{
    if j > 0 {
        if s[j - 1] == ')' {
            lemma_matching_open_before(s, j - 1, depth + 1);
        } else if s[j - 1] == '(' {
            if depth > 0 {
                lemma_matching_open_before(s, j - 1, (depth - 1) as nat);
            }
        } else {
            lemma_matching_open_before(s, j - 1, depth);
        }
    }
}

/// Whether `s` begins with `p`.
pub open spec fn begins_with(s: Seq<char>, p: Seq<char>) -> bool {
    p.len() <= s.len() && s.take(p.len() as int) == p
}

/// Whether `s` ends with `p`.
pub open spec fn finishes_with(s: Seq<char>, p: Seq<char>) -> bool {
    p.len() <= s.len() && s.skip(s.len() - p.len()) == p
}

/// `s` with a leading `p` replaced by `r` (the first occurrence of `p`, when
/// `s` begins with it); otherwise `s`.
pub open spec fn replace_leading(s: Seq<char>, p: Seq<char>, r: Seq<char>) -> Seq<char> {
    if begins_with(s, p) {
        r + s.skip(p.len() as int)
    } else {
        s
    }
}

/// `s` with every `p` replaced by `r` when `s` ends with `p`; otherwise `s`.
pub open spec fn replace_if_trailing(s: Seq<char>, p: Seq<char>, r: Seq<char>) -> Seq<char> {
    if finishes_with(s, p) {
        replace_all(s, p, r)
    } else {
        s
    }
}

/// Every occurrence of the variable's name replaced by the kernel's input
/// element, and the methods of that element that WGSL writes as functions
/// rewritten.
pub open spec fn with_input_element(expr: Seq<char>, var_name: Seq<char>) -> Seq<char> {
    let w = replace_all(expr, var_name, "input[index]"@);
    let w = replace_all(w, "input[index].abs()"@, "abs(input[index])"@);
    let w = replace_all(w, "input[index].sqrt()"@, "sqrt(input[index])"@);
    let w = replace_all(w, "input[index].sin()"@, "sin(input[index])"@);
    replace_all(w, "input[index].cos()"@, "cos(input[index])"@)
}

/// Method calls on bracketed expressions rewritten into function calls.
pub open spec fn with_function_calls(w: Seq<char>) -> Seq<char> {
    let w = method_calls_rewritten(w, "abs"@);
    let w = method_calls_rewritten(w, "sqrt"@);
    let w = method_calls_rewritten(w, "sin"@);
    let w = method_calls_rewritten(w, "cos"@);
    method_calls_rewritten(w, "tan"@)
}

/// Small integer literals written as floating-point literals.
pub open spec fn with_float_literals(w: Seq<char>) -> Seq<char> {
    let w = replace_all(w, " 1 "@, " 1.0 "@);
    let w = replace_all(w, " 2 "@, " 2.0 "@);
    let w = replace_all(w, " 3 "@, " 3.0 "@);
    let w = replace_all(w, " 4 "@, " 4.0 "@);
    let w = replace_all(w, " 5 "@, " 5.0 "@);
    let w = replace_leading(w, "1 "@, "1.0 "@);
    let w = replace_leading(w, "2 "@, "2.0 "@);
    let w = replace_if_trailing(w, " 1"@, " 1.0"@);
    replace_if_trailing(w, " 2"@, " 2.0"@)
}

/// The WGSL expression for a Rust expression over the variable `var_name`.
pub open spec fn wgsl_expression(expr: Seq<char>, var_name: Seq<char>) -> Seq<char> {
    with_float_literals(with_function_calls(with_input_element(expr, var_name)))
}

/// A compute kernel that stores `body`, evaluated for each input element,
/// into the output element of the same index.
pub open spec fn kernel_source(body: Seq<char>) -> Seq<char> {
    "\n@group(0) @binding(0) var<storage, read> input: array<f32>;\n@group(0) @binding(1) var<storage, read_write> output: array<f32>;\n\n@compute @workgroup_size(64)\nfn main(@builtin(global_invocation_id) global_id: vec3<u32>) {\n    let index = global_id.x;\n    if (index >= arrayLength(&input)) { return; }\n    output[index] = "@
        + body + ";\n}\n"@
}

/// A text without `.` has no method call to rewrite.
proof fn lemma_no_method_calls(s: Seq<char>, m: Seq<char>)
    requires
        forall|i: int| 0 <= i < s.len() ==> s[i] != '.',
    ensures
        method_calls_rewritten(s, m) == s,
{
    lemma_first_char_absent(s, method_pattern(m), Seq::empty());
}

/// A function call `f(input[index])`, for `f` a math function, is left as
/// it is by the rewriting of method calls and of integer literals.
proof fn lemma_call_is_final(out: Seq<char>)
    requires
        out.len() >= 2,
        out[0] != '1' && out[0] != '2',
        out[out.len() - 2] != ' ',
        forall|i: int| 0 <= i < out.len() ==> out[i] != '.' && out[i] != ' ',
    ensures
        with_float_literals(with_function_calls(out)) == out,
{
    lemma_no_method_calls(out, "abs"@);
    lemma_no_method_calls(out, "sqrt"@);
    lemma_no_method_calls(out, "sin"@);
    lemma_no_method_calls(out, "cos"@);
    lemma_no_method_calls(out, "tan"@);
    reveal_strlit(" 1 ");
    reveal_strlit(" 2 ");
    reveal_strlit(" 3 ");
    reveal_strlit(" 4 ");
    reveal_strlit(" 5 ");
    reveal_strlit("1 ");
    reveal_strlit("2 ");
    reveal_strlit(" 1");
    reveal_strlit(" 2");
    lemma_first_char_absent(out, " 1 "@, " 1.0 "@);
    lemma_first_char_absent(out, " 2 "@, " 2.0 "@);
    lemma_first_char_absent(out, " 3 "@, " 3.0 "@);
    lemma_first_char_absent(out, " 4 "@, " 4.0 "@);
    lemma_first_char_absent(out, " 5 "@, " 5.0 "@);
    assert(out.take(2)[0] == out[0]);
    assert(!begins_with(out, "1 "@));
    assert(!begins_with(out, "2 "@));
    assert(out.skip(out.len() - 2)[0] == out[out.len() - 2]);
    assert(!finishes_with(out, " 1"@));
    assert(!finishes_with(out, " 2"@));
}

/// The variable followed by `tail`, with the variable replaced by the input
/// element: the input element followed by `tail`, when the variable does
/// not occur in `tail`.
proof fn lemma_variable_then(var: Seq<char>, tail: Seq<char>)
    requires
        first_occurrence(tail, var) is None,
    ensures
        replace_all(var + tail, var, "input[index]"@) == "input[index]"@ + tail,
{
    let s = var + tail;
    if var.len() == 0 {
        assert(occurs_at(tail, var, 0)) by {
            assert(tail.subrange(0, 0) =~= var);
        }
        assert(find_from(tail, var, 0) is Some);
    }
    assert(s.take(var.len() as int) =~= var);
    assert(s.skip(var.len() as int) =~= tail);
    law_replace_without_occurrence(tail, var, "input[index]"@);
}

/// Calling a math method on the variable becomes calling the WGSL function
/// of the same name on the input element: `x.sin()` becomes
/// `sin(input[index])`, `x.cos()` becomes `cos(input[index])` and
/// `x.abs()` becomes `abs(input[index])` and `x.sqrt()` becomes
/// `sqrt(input[index])`, for every variable name that does not occur in the
/// method call.
pub proof fn law_math_method_on_variable(var: Seq<char>)
    ensures
        first_occurrence(".sin()"@, var) is None
            ==> wgsl_expression(var + ".sin()"@, var) == "sin(input[index])"@,
        first_occurrence(".cos()"@, var) is None
            ==> wgsl_expression(var + ".cos()"@, var) == "cos(input[index])"@,
        first_occurrence(".abs()"@, var) is None
            ==> wgsl_expression(var + ".abs()"@, var) == "abs(input[index])"@,
        first_occurrence(".sqrt()"@, var) is None
            ==> wgsl_expression(var + ".sqrt()"@, var) == "sqrt(input[index])"@,
{
    reveal_strlit("input[index]");
    reveal_strlit(".sin()");
    reveal_strlit(".cos()");
    reveal_strlit(".abs()");
    reveal_strlit(".sqrt()");
    reveal_strlit("input[index].abs()");
    reveal_strlit("input[index].sqrt()");
    reveal_strlit("input[index].sin()");
    reveal_strlit("input[index].cos()");
    reveal_strlit("abs(input[index])");
    reveal_strlit("sqrt(input[index])");
    reveal_strlit("sin(input[index])");
    reveal_strlit("cos(input[index])");
    let pa = "input[index].abs()"@;
    let pq = "input[index].sqrt()"@;
    let ps = "input[index].sin()"@;
    let pc = "input[index].cos()"@;
    let ra = "abs(input[index])"@;
    let rq = "sqrt(input[index])"@;
    let rs = "sin(input[index])"@;
    let rc = "cos(input[index])"@;
    if first_occurrence(".sin()"@, var) is None {
        lemma_variable_then(var, ".sin()"@);
        let w = "input[index]"@ + ".sin()"@;
        assert(w =~= ps);
        assert(ps[13] != pa[13]);
        lemma_replace_not_longer(w, pa, ra);
        lemma_replace_not_longer(w, pq, rq);
        lemma_replace_not_longer(w, ps, rs);
        lemma_replace_not_longer(rs, pc, rc);
        assert(with_input_element(var + ".sin()"@, var) == rs);
        lemma_call_is_final(rs);
    }
    if first_occurrence(".cos()"@, var) is None {
        lemma_variable_then(var, ".cos()"@);
        let w = "input[index]"@ + ".cos()"@;
        assert(w =~= pc);
        assert(pc[13] != pa[13]);
        assert(pc[13] != ps[13]);
        lemma_replace_not_longer(w, pa, ra);
        lemma_replace_not_longer(w, pq, rq);
        lemma_replace_not_longer(w, ps, rs);
        lemma_replace_not_longer(w, pc, rc);
        assert(with_input_element(var + ".cos()"@, var) == rc);
        lemma_call_is_final(rc);
    }
    if first_occurrence(".abs()"@, var) is None {
        lemma_variable_then(var, ".abs()"@);
        let w = "input[index]"@ + ".abs()"@;
        assert(w =~= pa);
        lemma_replace_not_longer(w, pa, ra);
        lemma_replace_not_longer(ra, pq, rq);
        lemma_replace_not_longer(ra, ps, rs);
        lemma_replace_not_longer(ra, pc, rc);
        assert(with_input_element(var + ".abs()"@, var) == ra);
        lemma_call_is_final(ra);
    }
    if first_occurrence(".sqrt()"@, var) is None {
        lemma_variable_then(var, ".sqrt()"@);
        let w = "input[index]"@ + ".sqrt()"@;
        assert(w =~= pq);
        lemma_find_from(pq, pa, 0);
        if let Some(p) = find_from(pq, pa, 0) {
            if p == 0 {
                assert(pq.subrange(0, 18)[13] == pq[13]);
            } else {
                assert(pq.subrange(p, p + 18)[0] == pq[p]);
            }
        }
        law_replace_without_occurrence(pq, pa, ra);
        lemma_replace_not_longer(pq, pq, rq);
        assert(rq[0] != ps[0]);
        assert(rq[0] != pc[0]);
        lemma_replace_not_longer(rq, ps, rs);
        lemma_replace_not_longer(rq, pc, rc);
        assert(with_input_element(var + ".sqrt()"@, var) == rq);
        lemma_call_is_final(rq);
    }
}

/// Scanning back over characters that are not brackets changes nothing.
proof fn lemma_scan_plain(s: Seq<char>, j: int, lo: int, depth: nat)
    requires
        0 <= lo <= j <= s.len(),
        forall|k: int| lo <= k < j ==> s[k] != '(' && s[k] != ')',
    ensures
        matching_open(s, j, depth) == matching_open(s, lo, depth),
    decreases j,
{
    if j > lo {
        lemma_scan_plain(s, j - 1, lo, depth);
    }
}

/// A method called on a bracketed expression becomes a function applied to
/// the expression: `(e).m()` is rewritten into `m(e)`, for every `e`
/// without brackets or dots and every method name `m` without dots.
pub proof fn law_method_call_becomes_function_call(e: Seq<char>, m: Seq<char>)
    requires
        forall|i: int| 0 <= i < e.len() ==> e[i] != '(' && e[i] != ')' && e[i] != '.',
        forall|i: int| 0 <= i < m.len() ==> m[i] != '.',
    ensures
        method_calls_rewritten(seq!['('] + e + seq![')'] + method_pattern(m), m) == m + seq!['('] + e + seq![')'],
{
    let pat = method_pattern(m);
    let s = seq!['('] + e + seq![')'] + pat;
    let p: int = e.len() as int + 2;
    assert(s.len() == p + pat.len());
    assert forall|k: int| 0 <= k < s.len() && s[k] == '.' implies k == p by {
        if k < p {
            if 1 <= k < p - 1 {
                assert(s[k] == e[k - 1]);
            }
        } else if k > p {
            assert(s[k] == pat[k - p]);
            if k - p - 1 < m.len() {
                assert(pat[k - p] == m[k - p - 1]);
            }
        }
    }
    assert(s.subrange(p, p + pat.len()) =~= pat);
    assert(occurs_at(s, pat, p));
    lemma_find_from(s, pat, 0);
    let q = find_from(s, pat, 0)->0;
    assert(s.subrange(q, q + pat.len())[0] == s[q]);
    assert(q == p);
    assert(s[p - 1] == ')');
    assert forall|k: int| 1 <= k < p - 1 implies s[k] != '(' && s[k] != ')' by {
        assert(s[k] == e[k - 1]);
    }
    lemma_scan_plain(s, p - 1, 1, 0);
    assert(s[0] == '(');
    assert(matching_open(s, 1, 0) == Some(0int));
    let t = m + seq!['('] + e + seq![')'];
    assert(s.take(0) + m + seq!['('] + s.subrange(1, p - 1) + seq![')'] + s.skip(p + pat.len()) =~= t);
    assert(rewrite_method_call(s, m) == Some(t));
    assert forall|i: int| 0 <= i < t.len() implies t[i] != '.' by {
        if i < m.len() {
            assert(t[i] == m[i]);
        } else if m.len() < i < m.len() + 1 + e.len() {
            assert(t[i] == e[i - m.len() - 1]);
        }
    }
    lemma_no_method_calls(t, m);
}

/// A character that is neither a space nor a decimal digit.
pub open spec fn plain_char(c: char) -> bool {
    c != ' ' && !('0' <= c && c <= '9')
}

/// One replacement of a spaced digit `pat` in `a + mid + b`, where `mid` is
/// a spaced word and `a`, `b` hold neither spaces nor digits: only `mid`
/// can be the pattern.
proof fn lemma_literal_step(a: Seq<char>, mid: Seq<char>, b: Seq<char>, pat: Seq<char>, rep: Seq<char>)
    requires
        pat.len() == 3,
        pat[0] == ' ' && pat[2] == ' ',
        '0' <= pat[1] && pat[1] <= '9',
        mid.len() >= 3,
        mid[0] == ' ' && mid[mid.len() - 1] == ' ',
        forall|i: int| 0 < i < mid.len() - 1 ==> mid[i] != ' ',
        forall|i: int| 0 <= i < a.len() ==> plain_char(#[trigger] a[i]),
        forall|i: int| 0 <= i < b.len() ==> plain_char(#[trigger] b[i]),
    ensures
        replace_all(a + mid + b, pat, rep) == (if mid == pat { a + rep + b } else { a + mid + b }),
{
    let w = a + mid + b;
    let la = a.len() as int;
    let lm = mid.len() as int;
    assert forall|k: int| occurs_at(w, pat, k) implies k == la && mid == pat by {
        let sub = w.subrange(k, k + 3);
        assert(sub[0] == w[k]);
        assert(sub[1] == w[k + 1]);
        assert(sub[2] == w[k + 2]);
        if k < la {
            assert(w[k] == a[k]);
            assert(plain_char(a[k]));
        } else if la < k < la + lm - 1 {
            assert(w[k] == mid[k - la]);
        } else if k >= la + lm {
            assert(w[k] == b[k - la - lm]);
            assert(plain_char(b[k - la - lm]));
        } else if k == la + lm - 1 {
            assert(w[k + 1] == b[0]);
            assert(plain_char(b[0]));
        } else {
            if lm > 3 {
                assert(w[k + 2] == mid[2]);
            }
            assert(w[k + 1] == mid[1]);
            assert(w[k + 2] == mid[2]);
            assert(mid =~= pat);
        }
    }
    if mid != pat {
        lemma_find_from(w, pat, 0);
        law_replace_without_occurrence(w, pat, rep);
    } else {
        assert(w =~= a + (pat + b));
        lemma_replace_after_prefix(a, pat + b, pat, rep);
        lemma_replace_leading_occurrence(b, pat, rep);
        lemma_first_char_absent(b, pat, rep);
        assert(a + (rep + b) =~= a + rep + b);
    }
}

/// A small integer literal standing between spaces becomes a floating-point
/// literal, and the rest of the text stays as it is: `a 2 b` becomes
/// `a 2.0 b` for the digits 1 to 5, whatever `a` and `b` are, as long as
/// they hold neither spaces nor digits.
pub proof fn law_small_integer_becomes_float(a: Seq<char>, b: Seq<char>, d: char)
    requires
        '1' <= d && d <= '5',
        forall|i: int| 0 <= i < a.len() ==> plain_char(#[trigger] a[i]),
        forall|i: int| 0 <= i < b.len() ==> plain_char(#[trigger] b[i]),
    ensures
        with_float_literals(a + seq![' ', d, ' '] + b) == a + seq![' ', d, '.', '0', ' '] + b,
{
    reveal_strlit(" 1 ");
    reveal_strlit(" 2 ");
    reveal_strlit(" 3 ");
    reveal_strlit(" 4 ");
    reveal_strlit(" 5 ");
    reveal_strlit(" 1.0 ");
    reveal_strlit(" 2.0 ");
    reveal_strlit(" 3.0 ");
    reveal_strlit(" 4.0 ");
    reveal_strlit(" 5.0 ");
    reveal_strlit("1 ");
    reveal_strlit("2 ");
    reveal_strlit(" 1");
    reveal_strlit(" 2");
    let lit = seq![' ', d, ' '];
    let fl = seq![' ', d, '.', '0', ' '];
    let m0 = lit;
    lemma_literal_step(a, m0, b, " 1 "@, " 1.0 "@);
    let m1 = if d == '1' { fl } else { m0 };
    if d == '1' {
        assert(m0 =~= " 1 "@);
        assert(" 1.0 "@ =~= fl);
    } else {
        assert(m0[1] != " 1 "@[1]);
    }
    lemma_literal_step(a, m1, b, " 2 "@, " 2.0 "@);
    let m2 = if d == '2' { fl } else { m1 };
    if d == '2' {
        assert(m1 =~= " 2 "@);
        assert(" 2.0 "@ =~= fl);
    } else if m1 == lit {
        assert(m1[1] != " 2 "@[1]);
    }
    lemma_literal_step(a, m2, b, " 3 "@, " 3.0 "@);
    let m3 = if d == '3' { fl } else { m2 };
    if d == '3' {
        assert(m2 =~= " 3 "@);
        assert(" 3.0 "@ =~= fl);
    } else if m2 == lit {
        assert(m2[1] != " 3 "@[1]);
    }
    lemma_literal_step(a, m3, b, " 4 "@, " 4.0 "@);
    let m4 = if d == '4' { fl } else { m3 };
    if d == '4' {
        assert(m3 =~= " 4 "@);
        assert(" 4.0 "@ =~= fl);
    } else if m3 == lit {
        assert(m3[1] != " 4 "@[1]);
    }
    lemma_literal_step(a, m4, b, " 5 "@, " 5.0 "@);
    if d == '5' {
        assert(m4 =~= " 5 "@);
        assert(" 5.0 "@ =~= fl);
    }
    assert(m4 == lit || m4 == fl);
    let w = a + fl + b;
    assert(replace_all(replace_all(replace_all(replace_all(replace_all(a + lit + b, " 1 "@, " 1.0 "@),
        " 2 "@, " 2.0 "@), " 3 "@, " 3.0 "@), " 4 "@, " 4.0 "@), " 5 "@, " 5.0 "@) == w);
    if a.len() > 0 {
        assert(w[0] == a[0]);
        assert(plain_char(a[0]));
    } else {
        assert(w[0] == fl[0]);
    }
    assert(w.take(2)[0] == w[0]);
    assert(!begins_with(w, "1 "@));
    assert(!begins_with(w, "2 "@));
    let n = w.len() as int;
    if b.len() > 0 {
        assert(w[n - 1] == b[b.len() - 1]);
        assert(plain_char(b[b.len() - 1]));
    } else {
        assert(w[n - 1] == fl[4]);
    }
    assert(w.skip(n - 2)[1] == w[n - 1]);
    assert(!finishes_with(w, " 1"@));
    assert(!finishes_with(w, " 2"@));
}

/// Whether `s` begins with `p`.
fn begins_with_exec(s: &Vec<char>, p: &Vec<char>) -> (b: bool)
    ensures
        b == begins_with(s@, p@),
{
    let r = occurs_at_exec(s, p, 0);
    proof {
        assert(s@.subrange(0, p@.len() as int) =~= s@.take(p@.len() as int));
    }
    r
}

/// Whether `s` ends with `p`.
fn finishes_with_exec(s: &Vec<char>, p: &Vec<char>) -> (b: bool)
    ensures
        b == finishes_with(s@, p@),
{
    if p.len() > s.len() {
        return false;
    }
    let r = occurs_at_exec(s, p, s.len() - p.len());
    proof {
        assert(s@.subrange(s@.len() - p@.len(), s@.len() as int) =~= s@.skip(s@.len() - p@.len()));
    }
    r
}

/// `w` with every `pat` replaced by `rep`.
fn replace_text(w: &Vec<char>, pat: &str, rep: &str) -> (out: Vec<char>)
    ensures
        out@ == replace_all(w@, pat@, rep@),
{
    replace_chars(w, &chars_of(pat), &chars_of(rep))
}

/// `w` with a leading `pat` replaced by `rep`.
fn replace_leading_text(w: Vec<char>, pat: &str, rep: &str) -> (out: Vec<char>)
    ensures
        out@ == replace_leading(w@, pat@, rep@),
{
    let p = chars_of(pat);
    if begins_with_exec(&w, &p) {
        let mut out = chars_of(rep);
        let n = w.len();
        append_range(&mut out, &w, p.len(), n);
        proof {
            assert(w@.subrange(p@.len() as int, n as int) =~= w@.skip(p@.len() as int));
        }
        out
    } else {
        w
    }
}

/// `w` with every `pat` replaced by `rep` when `w` ends with `pat`.
fn replace_if_trailing_text(w: Vec<char>, pat: &str, rep: &str) -> (out: Vec<char>)
    ensures
        out@ == replace_if_trailing(w@, pat@, rep@),
{
    let p = chars_of(pat);
    if finishes_with_exec(&w, &p) {
        replace_chars(&w, &p, &chars_of(rep))
    } else {
        w
    }
}

/// Simple runtime Rust-to-WGSL expression transpiler.
///
/// The variable is replaced by the kernel's input element, method calls that
/// WGSL writes as functions are rewritten, small integer literals are
/// written as floating-point literals, and the expression is placed in a
/// compute kernel that applies it to every element.
pub fn transpile_rust_expression(expr_str: &str, var_name: &str) -> (kernel: String)
    ensures
        kernel@ == kernel_source(wgsl_expression(expr_str@, var_name@)),
{
    let w = chars_of(expr_str);
    let w = replace_text(&w, var_name, "input[index]");
    let w = replace_text(&w, "input[index].abs()", "abs(input[index])");
    let w = replace_text(&w, "input[index].sqrt()", "sqrt(input[index])");
    let w = replace_text(&w, "input[index].sin()", "sin(input[index])");
    let w = replace_text(&w, "input[index].cos()", "cos(input[index])");

    let w = rewrite_calls(w, "abs");
    let w = rewrite_calls(w, "sqrt");
    let w = rewrite_calls(w, "sin");
    let w = rewrite_calls(w, "cos");
    let w = rewrite_calls(w, "tan");

    let w = replace_text(&w, " 1 ", " 1.0 ");
    let w = replace_text(&w, " 2 ", " 2.0 ");
    let w = replace_text(&w, " 3 ", " 3.0 ");
    let w = replace_text(&w, " 4 ", " 4.0 ");
    let w = replace_text(&w, " 5 ", " 5.0 ");
    let w = replace_leading_text(w, "1 ", "1.0 ");
    let w = replace_leading_text(w, "2 ", "2.0 ");
    let w = replace_if_trailing_text(w, " 1", " 1.0");
    let w = replace_if_trailing_text(w, " 2", " 2.0");

    let mut kernel = String::from_str(
        "\n@group(0) @binding(0) var<storage, read> input: array<f32>;\n@group(0) @binding(1) var<storage, read_write> output: array<f32>;\n\n@compute @workgroup_size(64)\nfn main(@builtin(global_invocation_id) global_id: vec3<u32>) {\n    let index = global_id.x;\n    if (index >= arrayLength(&input)) { return; }\n    output[index] = ",
    );
    let body = string_of(&w);
    kernel.append(body.as_str());
    kernel.append(";\n}\n");
    kernel
}

} // verus!
