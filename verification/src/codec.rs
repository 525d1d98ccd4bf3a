//! The state file's wire form. The supervisor's state is written as a
//! single JSON object and read back by every other invocation; encoding
//! and parsing are defined here over character sequences, and parsing
//! provably inverts encoding, so a loaded state is field-for-field the
//! state that was saved. Strings escape the backslash, the double quote
//! and the newline; timestamps travel as integer milliseconds.
use crate::num::{dec_int_seq, dec_seq, dec_i64, digits_val, is_digit, all_digits};
use crate::state::{ManagerInfo, ManagerState, ProcessInfo};
use crate::strutil::{lemma_map_values_push, lemma_take_snoc, push_char, str_chars};
use vstd::prelude::*;
use vstd::string::StringExecFns;

verus! {

/// The abstract content of one process record.
pub ghost struct ProcessInfoV {
    pub name: Seq<char>,
    pub pid: int,
    pub pgid: int,
    pub cmd: Seq<char>,
    pub cwd: Option<Seq<char>>,
    pub stdout_log: Seq<char>,
    pub stderr_log: Seq<char>,
    pub started_at_ms: int,
}

/// The abstract content of the manager record.
pub ghost struct ManagerInfoV {
    pub pid: int,
    pub started_at_ms: int,
    pub project_root: Seq<char>,
    pub version: int,
}

/// The abstract content of a whole state value.
pub ghost struct ManagerStateV {
    pub manager: ManagerInfoV,
    pub processes: Seq<ProcessInfoV>,
}

pub open spec fn view_process(p: ProcessInfo) -> ProcessInfoV {
    ProcessInfoV {
        name: p.name@,
        pid: p.pid as int,
        pgid: p.pgid as int,
        cmd: p.cmd@,
        cwd: match p.cwd {
            Some(c) => Some(c@),
            None => None,
        },
        stdout_log: p.stdout_log@,
        stderr_log: p.stderr_log@,
        started_at_ms: p.started_at_ms as int,
    }
}

pub open spec fn view_manager(m: ManagerInfo) -> ManagerInfoV {
    ManagerInfoV {
        pid: m.pid as int,
        started_at_ms: m.started_at_ms as int,
        project_root: m.project_root@,
        version: m.version as int,
    }
}

pub open spec fn view_state(st: ManagerState) -> ManagerStateV {
    ManagerStateV {
        manager: view_manager(st.manager),
        processes: st.processes@.map_values(|p: ProcessInfo| view_process(p)),
    }
}

/// The wire form of one character inside a quoted string.
pub open spec fn esc_char(c: char) -> Seq<char> {
    if c == '\\' {
        seq!['\\', '\\']
    } else if c == '"' {
        seq!['\\', '"']
    } else if c == '\n' {
        seq!['\\', 'n']
    } else {
        seq![c]
    }
}

/// The wire form of a string's content.
pub open spec fn esc_str(s: Seq<char>) -> Seq<char>
    decreases s.len(),
{
    if s.len() == 0 {
        Seq::<char>::empty()
    } else {
        esc_str(s.drop_last()) + esc_char(s.last())
    }
}

/// A quoted, escaped string.
pub open spec fn enc_str(s: Seq<char>) -> Seq<char> {
    seq!['"'] + esc_str(s) + seq!['"']
}

/// A string field that may be absent.
pub open spec fn enc_opt_str(o: Option<Seq<char>>) -> Seq<char> {
    match o {
        Some(s) => enc_str(s),
        None => "null"@,
    }
}

/// The identity and group of a process record.
pub open spec fn enc_process_ids(p: ProcessInfoV) -> Seq<char> {
    "{\"name\":"@ + (enc_str(p.name) + (",\"pid\":"@ + (dec_int_seq(p.pid) + (",\"pgid\":"@
        + dec_int_seq(p.pgid)))))
}

/// The command and working directory of a process record.
pub open spec fn enc_process_cmd(p: ProcessInfoV) -> Seq<char> {
    ",\"cmd\":"@ + (enc_str(p.cmd) + (",\"cwd\":"@ + enc_opt_str(p.cwd)))
}

/// The log paths and start time of a process record.
pub open spec fn enc_process_logs(p: ProcessInfoV) -> Seq<char> {
    ",\"stdout_log\":"@ + (enc_str(p.stdout_log) + (",\"stderr_log\":"@ + (enc_str(
        p.stderr_log,
    ) + (",\"started_at_ms\":"@ + (dec_int_seq(p.started_at_ms) + "}"@)))))
}

/// The wire form of one process record.
pub open spec fn enc_process(p: ProcessInfoV) -> Seq<char> {
    enc_process_ids(p) + (enc_process_cmd(p) + enc_process_logs(p))
}

/// The wire form of the process list's inner part, after its first
/// element: each further element preceded by a comma.
pub open spec fn enc_process_rest(ps: Seq<ProcessInfoV>) -> Seq<char>
    decreases ps.len(),
{
    if ps.len() == 0 {
        Seq::<char>::empty()
    } else {
        enc_process_rest(ps.drop_last()) + (","@ + enc_process(ps.last()))
    }
}

/// The wire form of the process list.
pub open spec fn enc_process_list(ps: Seq<ProcessInfoV>) -> Seq<char> {
    if ps.len() == 0 {
        "[]"@
    } else {
        "["@ + (enc_process(ps.first()) + (enc_process_rest(ps.drop_first()) + "]"@))
    }
}

/// The wire form of the manager record.
pub open spec fn enc_manager(m: ManagerInfoV) -> Seq<char> {
    "{\"pid\":"@ + (dec_int_seq(m.pid) + (",\"started_at_ms\":"@ + (dec_int_seq(m.started_at_ms)
        + (",\"project_root\":"@ + (enc_str(m.project_root) + (",\"version\":"@ + (dec_int_seq(
        m.version,
    ) + "}"@)))))))
}

/// The wire form of a whole state value.
pub open spec fn enc_state(st: ManagerStateV) -> Seq<char> {
    "{\"manager\":"@ + (enc_manager(st.manager) + (",\"processes\":"@ + (enc_process_list(
        st.processes,
    ) + "}"@)))
}

fn append_escaped(out: &mut String, s: &str)
    ensures
        final(out)@ == old(out)@ + esc_str(s@),
{
    let cs = str_chars(s);
    let ghost base = out@;
    let mut i: usize = 0;
    proof {
        assert(esc_str(s@.take(0)) =~= Seq::<char>::empty());
        assert(out@ =~= base + esc_str(s@.take(0)));
    }
    while i < cs.len()
        invariant
            i <= cs@.len(),
            cs@ == s@,
            out@ == base + esc_str(s@.take(i as int)),
        decreases cs@.len() - i,
    {
        let c = cs[i];
        if c == '\\' {
            push_char(out, '\\');
            push_char(out, '\\');
        } else if c == '"' {
            push_char(out, '\\');
            push_char(out, '"');
        } else if c == '\n' {
            push_char(out, '\\');
            push_char(out, 'n');
        } else {
            push_char(out, c);
        }
        i = i + 1;
        proof {
            assert(s@.take(i as int).drop_last() =~= s@.take(i - 1));
            assert(s@.take(i as int).last() == s@[i - 1]);
            assert(out@ =~= base + esc_str(s@.take(i as int)));
        }
    }
    proof {
        assert(s@.take(s@.len() as int) =~= s@);
    }
}

fn append_enc_str(out: &mut String, s: &str)
    ensures
        final(out)@ == old(out)@ + enc_str(s@),
{
    let ghost base = out@;
    push_char(out, '"');
    append_escaped(out, s);
    push_char(out, '"');
    proof {
        assert(out@ =~= base + enc_str(s@));
    }
}

fn append_enc_opt_str(out: &mut String, o: &Option<String>)
    ensures
        final(out)@ == old(out)@ + enc_opt_str(
            match o {
                Some(s) => Some(s@),
                None => None,
            },
        ),
{
    match o {
        Some(s) => append_enc_str(out, s.as_str()),
        None => out.append("null"),
    }
}

fn append_i64(out: &mut String, n: i64)
    ensures
        final(out)@ == old(out)@ + dec_int_seq(n as int),
{
    let d = dec_i64(n);
    out.append(d.as_str());
}

#[verifier::rlimit(80)]
fn append_process(out: &mut String, p: &ProcessInfo)
    ensures
        final(out)@ == old(out)@ + enc_process(view_process(*p)),
{
    let ghost base = out@;
    out.append("{\"name\":");
    append_enc_str(out, p.name.as_str());
    out.append(",\"pid\":");
    append_i64(out, p.pid as i64);
    out.append(",\"pgid\":");
    append_i64(out, p.pgid as i64);
    proof {
        assert(out@ =~= base + enc_process_ids(view_process(*p)));
    }
    let ghost b1 = out@;
    out.append(",\"cmd\":");
    append_enc_str(out, p.cmd.as_str());
    out.append(",\"cwd\":");
    append_enc_opt_str(out, &p.cwd);
    proof {
        assert(out@ =~= b1 + enc_process_cmd(view_process(*p)));
    }
    let ghost b2 = out@;
    out.append(",\"stdout_log\":");
    append_enc_str(out, p.stdout_log.as_str());
    out.append(",\"stderr_log\":");
    append_enc_str(out, p.stderr_log.as_str());
    out.append(",\"started_at_ms\":");
    append_i64(out, p.started_at_ms);
    out.append("}");
    proof {
        assert(out@ =~= b2 + enc_process_logs(view_process(*p)));
        assert(out@ =~= base + enc_process(view_process(*p)));
    }
}

fn append_manager(out: &mut String, m: &ManagerInfo)
    ensures
        final(out)@ == old(out)@ + enc_manager(view_manager(*m)),
{
    let ghost base = out@;
    out.append("{\"pid\":");
    append_i64(out, m.pid as i64);
    out.append(",\"started_at_ms\":");
    append_i64(out, m.started_at_ms);
    out.append(",\"project_root\":");
    append_enc_str(out, m.project_root.as_str());
    out.append(",\"version\":");
    append_i64(out, m.version as i64);
    out.append("}");
    proof {
        assert(out@ =~= base + enc_manager(view_manager(*m)));
    }
}

/// Encode a state value to its wire form.
#[verifier::rlimit(80)]
pub fn encode_state(st: &ManagerState) -> (r: String)
    ensures
        r@ == enc_state(view_state(*st)),
{
    let ghost pv = st.processes@.map_values(|p: ProcessInfo| view_process(p));
    let mut out = String::from_str("{\"manager\":");
    append_manager(&mut out, &st.manager);
    out.append(",\"processes\":");
    let ghost mid = out@;
    if st.processes.len() == 0 {
        out.append("[]");
        proof {
            assert(out@ =~= mid + enc_process_list(pv));
        }
    } else {
        out.append("[");
        append_process(&mut out, &st.processes[0]);
        let ghost head = out@;
        proof {
            assert(pv[0] == view_process(st.processes@[0]));
            assert(enc_process_rest(pv.drop_first().take(0)) =~= Seq::<char>::empty());
            assert(out@ =~= head + enc_process_rest(pv.drop_first().take(0)));
        }
        let mut i: usize = 1;
        while i < st.processes.len()
            invariant
                1 <= i <= st.processes@.len(),
                pv == st.processes@.map_values(|p: ProcessInfo| view_process(p)),
                pv.len() == st.processes@.len(),
                out@ == head + enc_process_rest(pv.drop_first().take(i - 1)),
            decreases st.processes@.len() - i,
        {
            out.append(",");
            append_process(&mut out, &st.processes[i]);
            i = i + 1;
            proof {
                let rest = pv.drop_first();
                assert(rest.take(i - 1).drop_last() =~= rest.take(i - 2));
                assert(rest.take(i - 1).last() == rest[i - 2]);
                assert(rest[i - 2] == pv[i - 1]);
                assert(pv[i - 1] == view_process(st.processes@[i - 1]));
                assert(out@ =~= head + enc_process_rest(rest.take(i - 1)));
            }
        }
        out.append("]");
        proof {
            assert(pv.drop_first().take(pv.drop_first().len() as int) =~= pv.drop_first());
            assert(out@ =~= mid + enc_process_list(pv));
        }
    }
    out.append("}");
    proof {
        assert(out@ =~= enc_state(view_state(*st)));
    }
    out
}


// ---------------------------------------------------------------------
// Parsing. The parser works over the same character sequences; each
// function returns the parsed value and the position after it, or
// nothing. The lemmas below prove that parsing inverts encoding.
// ---------------------------------------------------------------------

/// A literal at a position: the position after it, if it is there.
pub open spec fn p_lit(s: Seq<char>, i: int, lit: Seq<char>) -> Option<int> {
    if 0 <= i && i + lit.len() <= s.len() && s.subrange(i, i + lit.len()) == lit {
        Some(i + lit.len())
    } else {
        None
    }
}

/// The end of the digit run starting at a position.
pub open spec fn digits_end(s: Seq<char>, i: int) -> int
    decreases s.len() - i,
{
    if 0 <= i < s.len() && is_digit(s[i]) {
        digits_end(s, i + 1)
    } else {
        i
    }
}

/// An integer at a position: an optional minus sign and a nonempty digit
/// run.
pub open spec fn p_int(s: Seq<char>, i: int) -> Option<(int, int)> {
    if 0 <= i < s.len() && s[i] == '-' {
        let e = digits_end(s, i + 1);
        if e > i + 1 {
            Some((-digits_val(s.subrange(i + 1, e)), e))
        } else {
            None
        }
    } else if 0 <= i {
        let e = digits_end(s, i);
        if e > i {
            Some((digits_val(s.subrange(i, e)), e))
        } else {
            None
        }
    } else {
        None
    }
}

pub open spec fn is_escape_code(c: char) -> bool {
    c == '\\' || c == '"' || c == 'n'
}

pub open spec fn unesc_code(c: char) -> char {
    if c == 'n' {
        '\n'
    } else {
        c
    }
}

/// The position of the closing quote of a string body starting at `i`,
/// skipping escape pairs, or -1 if the string never closes properly.
pub open spec fn str_end(s: Seq<char>, i: int) -> int
    decreases s.len() - i,
{
    if !(0 <= i < s.len()) {
        -1
    } else if s[i] == '"' {
        i
    } else if s[i] == '\\' {
        if i + 1 < s.len() && is_escape_code(s[i + 1]) {
            str_end(s, i + 2)
        } else {
            -1
        }
    } else {
        str_end(s, i + 1)
    }
}

/// Undo the escaping of a string body.
pub open spec fn unesc_str(s: Seq<char>) -> Seq<char>
    decreases s.len(),
{
    if s.len() == 0 {
        Seq::<char>::empty()
    } else if s[0] == '\\' {
        if s.len() >= 2 {
            seq![unesc_code(s[1])] + unesc_str(s.skip(2))
        } else {
            seq![s[0]]
        }
    } else {
        seq![s[0]] + unesc_str(s.skip(1))
    }
}

/// A quoted string at a position.
pub open spec fn p_string(s: Seq<char>, i: int) -> Option<(Seq<char>, int)> {
    if 0 <= i < s.len() && s[i] == '"' {
        let e = str_end(s, i + 1);
        if e >= 0 {
            Some((unesc_str(s.subrange(i + 1, e)), e + 1))
        } else {
            None
        }
    } else {
        None
    }
}

/// A string or `null` at a position.
pub open spec fn p_opt_str(s: Seq<char>, i: int) -> Option<(Option<Seq<char>>, int)> {
    match p_lit(s, i, "null"@) {
        Some(j) => Some((None, j)),
        None => match p_string(s, i) {
            Some((v, j)) => Some((Some(v), j)),
            None => None,
        },
    }
}

/// One process record at a position.
#[verifier::opaque]
pub open spec fn p_process(s: Seq<char>, i: int) -> Option<(ProcessInfoV, int)> {
    match p_lit(s, i, "{\"name\":"@) {
        None => None,
        Some(i1) => match p_string(s, i1) {
            None => None,
            Some((name, i2)) => match p_lit(s, i2, ",\"pid\":"@) {
                None => None,
                Some(i3) => match p_int(s, i3) {
                    None => None,
                    Some((pid, i4)) => match p_lit(s, i4, ",\"pgid\":"@) {
                        None => None,
                        Some(i5) => match p_int(s, i5) {
                            None => None,
                            Some((pgid, i6)) => match p_lit(s, i6, ",\"cmd\":"@) {
                                None => None,
                                Some(i7) => match p_string(s, i7) {
                                    None => None,
                                    Some((cmd, i8)) => match p_lit(s, i8, ",\"cwd\":"@) {
                                        None => None,
                                        Some(i9) => match p_opt_str(s, i9) {
                                            None => None,
                                            Some((cwd, i10)) => match p_lit(
                                                s,
                                                i10,
                                                ",\"stdout_log\":"@,
                                            ) {
                                                None => None,
                                                Some(i11) => match p_string(s, i11) {
                                                    None => None,
                                                    Some((so, i12)) => match p_lit(
                                                        s,
                                                        i12,
                                                        ",\"stderr_log\":"@,
                                                    ) {
                                                        None => None,
                                                        Some(i13) => match p_string(s, i13) {
                                                            None => None,
                                                            Some((se, i14)) => match p_lit(
                                                                s,
                                                                i14,
                                                                ",\"started_at_ms\":"@,
                                                            ) {
                                                                None => None,
                                                                Some(i15) => match p_int(s, i15) {
                                                                    None => None,
                                                                    Some((ts, i16)) => match p_lit(
                                                                        s,
                                                                        i16,
                                                                        "}"@,
                                                                    ) {
                                                                        None => None,
                                                                        Some(i17) => Some(
                                                                            (
                                                                                ProcessInfoV {
                                                                                    name,
                                                                                    pid,
                                                                                    pgid,
                                                                                    cmd,
                                                                                    cwd,
                                                                                    stdout_log: so,
                                                                                    stderr_log: se,
                                                                                    started_at_ms: ts,
                                                                                },
                                                                                i17,
                                                                            ),
                                                                        ),
                                                                    },
                                                                },
                                                            },
                                                        },
                                                    },
                                                },
                                            },
                                        },
                                    },
                                },
                            },
                        },
                    },
                },
            },
        },
    }
}

pub proof fn lemma_digits_end_ge(s: Seq<char>, i: int)
    ensures
        digits_end(s, i) >= i,
        digits_end(s, i) <= if i <= s.len() {
            s.len() as int
        } else {
            i
        },
    decreases s.len() - i,
{
    if 0 <= i < s.len() && is_digit(s[i]) {
        lemma_digits_end_ge(s, i + 1);
    }
}

pub proof fn lemma_p_int_bounds(s: Seq<char>, i: int)
    requires
        p_int(s, i) is Some,
    ensures
        i < (p_int(s, i)->0).1 <= s.len(),
{
    lemma_digits_end_ge(s, i);
    if 0 <= i < s.len() && s[i] == '-' {
        lemma_digits_end_ge(s, i + 1);
    }
}

pub proof fn lemma_str_end_ge(s: Seq<char>, i: int)
    ensures
        str_end(s, i) >= 0 ==> i <= str_end(s, i) < s.len(),
    decreases s.len() - i,
{
    if 0 <= i < s.len() {
        if s[i] == '"' {
        } else if s[i] == '\\' {
            if i + 1 < s.len() && is_escape_code(s[i + 1]) {
                lemma_str_end_ge(s, i + 2);
            }
        } else {
            lemma_str_end_ge(s, i + 1);
        }
    }
}

pub proof fn lemma_p_string_bounds(s: Seq<char>, i: int)
    requires
        p_string(s, i) is Some,
    ensures
        i < (p_string(s, i)->0).1 <= s.len(),
{
    lemma_str_end_ge(s, i + 1);
}

pub proof fn lemma_p_process_bounds(s: Seq<char>, i: int)
    requires
        p_process(s, i) is Some,
    ensures
        i < (p_process(s, i)->0).1 <= s.len(),
{
    reveal(p_process);
    match p_lit(s, i, "{\"name\":"@) {
        None => {},
        Some(i1) => {
            lemma_p_string_bounds(s, i1);
            match p_string(s, i1) {
                None => {},
                Some((name, i2)) => match p_lit(s, i2, ",\"pid\":"@) {
                    None => {},
                    Some(i3) => {
                        lemma_p_int_bounds(s, i3);
                        match p_int(s, i3) {
                            None => {},
                            Some((pid, i4)) => match p_lit(s, i4, ",\"pgid\":"@) {
                                None => {},
                                Some(i5) => {
                                    lemma_p_int_bounds(s, i5);
                                    match p_int(s, i5) {
                                        None => {},
                                        Some((pgid, i6)) => match p_lit(s, i6, ",\"cmd\":"@) {
                                            None => {},
                                            Some(i7) => {
                                                lemma_p_string_bounds(s, i7);
                                                match p_string(s, i7) {
                                                    None => {},
                                                    Some((cmd, i8)) => match p_lit(
                                                        s,
                                                        i8,
                                                        ",\"cwd\":"@,
                                                    ) {
                                                        None => {},
                                                        Some(i9) => {
                                                            match p_lit(s, i9, "null"@) {
                                                                Some(_) => {},
                                                                None => {
                                                                    if p_string(s, i9) is Some {
                                                                        lemma_p_string_bounds(
                                                                            s,
                                                                            i9,
                                                                        );
                                                                    }
                                                                },
                                                            }
                                                            match p_opt_str(s, i9) {
                                                                None => {},
                                                                Some((cwd, i10)) => match p_lit(
                                                                    s,
                                                                    i10,
                                                                    ",\"stdout_log\":"@,
                                                                ) {
                                                                    None => {},
                                                                    Some(i11) => {
                                                                        lemma_p_string_bounds(
                                                                            s,
                                                                            i11,
                                                                        );
                                                                        match p_string(s, i11) {
                                                                            None => {},
                                                                            Some((so, i12)) => {
                                                                                match p_lit(
                                                                                    s,
                                                                                    i12,
                                                                                    ",\"stderr_log\":"@,
                                                                                ) {
                                                                                    None => {},
                                                                                    Some(i13) => {
                                                                                        lemma_p_string_bounds(s, i13);
                                                                                        match p_lit(s, i14_of(s, i13), ",\"started_at_ms\":"@) {
                                                                                            None => {},
                                                                                            Some(i15) => {
                                                                                                lemma_p_int_bounds(s, i15);
                                                                                            },
                                                                                        }
                                                                                    },
                                                                                }
                                                                            },
                                                                        }
                                                                    },
                                                                },
                                                            }
                                                        },
                                                    },
                                                }
                                            },
                                        },
                                    }
                                },
                            },
                        }
                    },
                },
            }
        },
    }
}

/// The position after the stderr-log string, used to structure the
/// bounds proof.
spec fn i14_of(s: Seq<char>, i13: int) -> int {
    match p_string(s, i13) {
        Some((se, i14)) => i14,
        None => i13,
    }
}

/// Splitting a known subrange at a concatenation boundary.
pub proof fn lemma_subrange_cat(s: Seq<char>, i: int, a: Seq<char>, b: Seq<char>)
    requires
        0 <= i,
        i + a.len() + b.len() <= s.len(),
        s.subrange(i, i + a.len() + b.len()) == a + b,
    ensures
        s.subrange(i, i + a.len()) == a,
        s.subrange(i + a.len(), i + a.len() + b.len()) == b,
{
    assert forall|k: int| 0 <= k < a.len() implies s.subrange(i, i + a.len())[k] == a[k] by {
        assert(s.subrange(i, i + a.len() + b.len())[k] == s[i + k]);
    }
    assert(s.subrange(i, i + a.len()) =~= a);
    assert forall|k: int|
        0 <= k < b.len() implies s.subrange(i + a.len(), i + a.len() + b.len())[k] == b[k] by {
        assert(s.subrange(i, i + a.len() + b.len())[a.len() + k] == s[i + a.len() + k]);
    }
    assert(s.subrange(i + a.len(), i + a.len() + b.len()) =~= b);
}

proof fn lemma_digits_end_at(s: Seq<char>, j: int, e: int)
    requires
        0 <= j <= e <= s.len(),
        forall|k: int| j <= k < e ==> is_digit(s[k]),
        e == s.len() || !is_digit(s[e]),
    ensures
        digits_end(s, j) == e,
    decreases e - j,
{
    if j < e {
        assert(is_digit(s[j]));
        lemma_digits_end_at(s, j + 1, e);
    }
}

/// Parsing inverts integer rendering, given that the next character (if
/// any) is not a digit.
pub proof fn lemma_p_int_enc(s: Seq<char>, i: int, n: int)
    requires
        0 <= i,
        i + dec_int_seq(n).len() <= s.len(),
        s.subrange(i, i + dec_int_seq(n).len()) == dec_int_seq(n),
        i + dec_int_seq(n).len() == s.len() || !is_digit(s[i + dec_int_seq(n).len()]),
    ensures
        p_int(s, i) == Some((n, i + dec_int_seq(n).len())),
{
    let full = dec_int_seq(n);
    let ln = full.len() as int;
    if n >= 0 {
        let m = n as nat;
        crate::num::lemma_dec_seq_wf(m);
        crate::num::lemma_digits_val_dec_seq(m);
        assert(full == dec_seq(m));
        assert forall|k: int| i <= k < i + ln implies is_digit(s[k]) by {
            assert(s.subrange(i, i + ln)[k - i] == s[k]);
            assert(dec_seq(m)[k - i] == s[k]);
        }
        assert(s[i] == dec_seq(m)[0]) by {
            assert(s.subrange(i, i + ln)[0] == s[i]);
        }
        assert(is_digit(s[i]));
        assert(s[i] != '-');
        lemma_digits_end_at(s, i, i + ln);
        assert(digits_val(s.subrange(i, i + ln)) == m);
    } else {
        let m = (-n) as nat;
        crate::num::lemma_dec_seq_wf(m);
        crate::num::lemma_digits_val_dec_seq(m);
        assert(full == seq!['-'] + dec_seq(m));
        assert(s[i] == '-') by {
            assert(s.subrange(i, i + ln)[0] == s[i]);
            assert(full[0] == '-');
        }
        assert(s.subrange(i + 1, i + ln) =~= dec_seq(m)) by {
            assert forall|k: int| 0 <= k < ln - 1 implies s.subrange(i + 1, i + ln)[k] == dec_seq(
                m,
            )[k] by {
                assert(s.subrange(i, i + ln)[k + 1] == s[i + 1 + k]);
                assert(full[k + 1] == dec_seq(m)[k]);
            }
        }
        assert forall|k: int| i + 1 <= k < i + ln implies is_digit(s[k]) by {
            assert(s.subrange(i + 1, i + ln)[k - i - 1] == s[k]);
            assert(dec_seq(m)[k - i - 1] == s[k]);
        }
        lemma_digits_end_at(s, i + 1, i + ln);
        assert(digits_val(s.subrange(i + 1, i + ln)) == m);
        assert(ln >= 2);
    }
}

proof fn lemma_esc_str_front(x: Seq<char>)
    requires
        x.len() > 0,
    ensures
        esc_str(x) == esc_char(x[0]) + esc_str(x.drop_first()),
    decreases x.len(),
{
    if x.len() == 1 {
        assert(x.drop_last() =~= Seq::<char>::empty());
        assert(x.drop_first() =~= Seq::<char>::empty());
        assert(esc_str(x) =~= esc_char(x[0]) + esc_str(x.drop_first()));
    } else {
        lemma_esc_str_front(x.drop_last());
        assert(x.drop_last()[0] == x[0]);
        assert(x.drop_last().drop_first() =~= x.drop_first().drop_last());
        assert(x.drop_first().last() == x.last());
        assert(esc_str(x.drop_first()) == esc_str(x.drop_first().drop_last()) + esc_char(
            x.drop_first().last(),
        ));
        assert(esc_str(x) =~= esc_char(x[0]) + esc_str(x.drop_first()));
    }
}

proof fn lemma_unesc_esc(x: Seq<char>)
    ensures
        unesc_str(esc_str(x)) == x,
    decreases x.len(),
{
    if x.len() == 0 {
        assert(unesc_str(esc_str(x)) =~= x);
    } else {
        lemma_esc_str_front(x);
        lemma_unesc_esc(x.drop_first());
        let e = esc_str(x);
        let x0 = x[0];
        if x0 == '\\' || x0 == '"' || x0 == '\n' {
            assert(esc_char(x0).len() == 2);
            assert(e[0] == '\\');
            assert(e.len() >= 2);
            assert(e[1] == esc_char(x0)[1]);
            assert(unesc_code(e[1]) == x0);
            assert(e.skip(2) =~= esc_str(x.drop_first()));
            assert(unesc_str(e) =~= x);
        } else {
            assert(e[0] == x0);
            assert(e[0] != '\\');
            assert(e.skip(1) =~= esc_str(x.drop_first()));
            assert(unesc_str(e) =~= x);
        }
    }
}

proof fn lemma_str_end_enc(s: Seq<char>, i: int, x: Seq<char>)
    requires
        0 <= i,
        i + esc_str(x).len() < s.len(),
        s.subrange(i, i + esc_str(x).len()) == esc_str(x),
        s[i + esc_str(x).len()] == '"',
    ensures
        str_end(s, i) == i + esc_str(x).len(),
    decreases x.len(),
{
    if x.len() == 0 {
        assert(esc_str(x).len() == 0);
        assert(s[i] == '"');
    } else {
        lemma_esc_str_front(x);
        let x0 = x[0];
        let el = esc_str(x).len() as int;
        assert forall|k: int| 0 <= k < el implies s[i + k] == esc_str(x)[k] by {
            assert(s.subrange(i, i + el)[k] == s[i + k]);
        }
        if x0 == '\\' || x0 == '"' || x0 == '\n' {
            assert(esc_char(x0).len() == 2);
            assert(esc_str(x)[0] == esc_char(x0)[0]);
            assert(esc_char(x0)[0] == '\\');
            assert(s[i] == '\\');
            assert(esc_str(x)[1] == esc_char(x0)[1]);
            assert(s[i + 1] == esc_char(x0)[1]);
            assert(is_escape_code(s[i + 1]));
            assert(s.subrange(i + 2, i + el) =~= esc_str(x.drop_first())) by {
                assert forall|k: int| 0 <= k < el - 2 implies s.subrange(i + 2, i + el)[k]
                    == esc_str(x.drop_first())[k] by {
                    assert(s[i + 2 + k] == esc_str(x)[k + 2]);
                }
            }
            lemma_str_end_enc(s, i + 2, x.drop_first());
        } else {
            assert(esc_str(x)[0] == esc_char(x0)[0]);
            assert(esc_char(x0)[0] == x0);
            assert(s[i] == x0);
            assert(s[i] != '"' && s[i] != '\\');
            assert(s.subrange(i + 1, i + el) =~= esc_str(x.drop_first())) by {
                assert forall|k: int| 0 <= k < el - 1 implies s.subrange(i + 1, i + el)[k]
                    == esc_str(x.drop_first())[k] by {
                    assert(s[i + 1 + k] == esc_str(x)[k + 1]);
                }
            }
            lemma_str_end_enc(s, i + 1, x.drop_first());
        }
    }
}

/// Parsing inverts string encoding.
pub proof fn lemma_p_string_enc(s: Seq<char>, i: int, x: Seq<char>)
    requires
        0 <= i,
        i + enc_str(x).len() <= s.len(),
        s.subrange(i, i + enc_str(x).len()) == enc_str(x),
    ensures
        p_string(s, i) == Some((x, i + enc_str(x).len())),
{
    let el = esc_str(x).len() as int;
    assert(enc_str(x).len() == el + 2);
    assert forall|k: int| 0 <= k < el + 2 implies s[i + k] == enc_str(x)[k] by {
        assert(s.subrange(i, i + el + 2)[k] == s[i + k]);
    }
    assert(enc_str(x)[0] == '"');
    assert(s[i] == '"');
    assert(s[i + 1 + el] == '"') by {
        assert(enc_str(x)[el + 1] == '"');
    }
    assert(s.subrange(i + 1, i + 1 + el) =~= esc_str(x)) by {
        assert forall|k: int| 0 <= k < el implies s.subrange(i + 1, i + 1 + el)[k] == esc_str(
            x,
        )[k] by {
            assert(s[i + 1 + k] == enc_str(x)[k + 1]);
            assert(enc_str(x)[k + 1] == esc_str(x)[k]);
        }
    }
    lemma_str_end_enc(s, i + 1, x);
    lemma_unesc_esc(x);
    assert(unesc_str(s.subrange(i + 1, i + 1 + el)) == x);
}

/// Parsing inverts optional-string encoding.
pub proof fn lemma_p_opt_str_enc(s: Seq<char>, i: int, o: Option<Seq<char>>)
    requires
        0 <= i,
        i + enc_opt_str(o).len() <= s.len(),
        s.subrange(i, i + enc_opt_str(o).len()) == enc_opt_str(o),
    ensures
        p_opt_str(s, i) == Some((o, i + enc_opt_str(o).len())),
{
    reveal_strlit("null");
    match o {
        None => {
            assert(enc_opt_str(o) == "null"@);
            assert(p_lit(s, i, "null"@) == Some(i + "null"@.len()));
        },
        Some(x) => {
            assert(enc_opt_str(o) == enc_str(x));
            assert(s.subrange(i, i + enc_str(x).len())[0] == s[i]);
            assert(s[i] == '"');
            if p_lit(s, i, "null"@) is Some {
                assert(s.subrange(i, i + "null"@.len()) == "null"@);
                assert(s.subrange(i, i + "null"@.len())[0] == s[i]);
                assert(s[i] == 'n');
                assert(false);
            }
            lemma_p_string_enc(s, i, x);
        },
    }
}

/// Parsing inverts process encoding.
#[verifier::rlimit(100)]
pub proof fn lemma_p_process_enc(s: Seq<char>, i: int, p: ProcessInfoV)
    requires
        0 <= i,
        i + enc_process(p).len() <= s.len(),
        s.subrange(i, i + enc_process(p).len()) == enc_process(p),
    ensures
        p_process(s, i) == Some((p, i + enc_process(p).len())),
{
    reveal(p_process);
    reveal_strlit("{\"name\":");
    reveal_strlit(",\"pid\":");
    reveal_strlit(",\"pgid\":");
    reveal_strlit(",\"cmd\":");
    reveal_strlit(",\"cwd\":");
    reveal_strlit(",\"stdout_log\":");
    reveal_strlit(",\"stderr_log\":");
    reveal_strlit(",\"started_at_ms\":");
    reveal_strlit("}");
    let ids = enc_process_ids(p);
    let cmdp = enc_process_cmd(p);
    let logs = enc_process_logs(p);
    lemma_subrange_cat(s, i, ids, cmdp + logs);
    lemma_subrange_cat(s, i + ids.len(), cmdp, logs);
    // the identity part
    let l1 = "{\"name\":"@;
    let r1 = enc_str(p.name) + (",\"pid\":"@ + (dec_int_seq(p.pid) + (",\"pgid\":"@ + dec_int_seq(
        p.pgid,
    ))));
    lemma_subrange_cat(s, i, l1, r1);
    let i1 = i + l1.len();
    assert(p_lit(s, i, l1) == Some(i1));
    lemma_subrange_cat(
        s,
        i1,
        enc_str(p.name),
        ",\"pid\":"@ + (dec_int_seq(p.pid) + (",\"pgid\":"@ + dec_int_seq(p.pgid))),
    );
    lemma_p_string_enc(s, i1, p.name);
    let i2 = i1 + enc_str(p.name).len();
    lemma_subrange_cat(
        s,
        i2,
        ",\"pid\":"@,
        dec_int_seq(p.pid) + (",\"pgid\":"@ + dec_int_seq(p.pgid)),
    );
    let i3 = i2 + ",\"pid\":"@.len();
    assert(p_lit(s, i2, ",\"pid\":"@) == Some(i3));
    lemma_subrange_cat(s, i3, dec_int_seq(p.pid), ",\"pgid\":"@ + dec_int_seq(p.pgid));
    let i4 = i3 + dec_int_seq(p.pid).len();
    assert(s[i4] == ',') by {
        assert(s.subrange(i4, i4 + (",\"pgid\":"@ + dec_int_seq(p.pgid)).len())[0] == s[i4]);
    }
    assert(!is_digit(','));
    lemma_p_int_enc(s, i3, p.pid);
    lemma_subrange_cat(s, i4, ",\"pgid\":"@, dec_int_seq(p.pgid));
    let i5 = i4 + ",\"pgid\":"@.len();
    assert(p_lit(s, i4, ",\"pgid\":"@) == Some(i5));
    let i6 = i5 + dec_int_seq(p.pgid).len();
    assert(i6 == i + ids.len());
    assert(s[i6] == ',') by {
        assert(s.subrange(i + ids.len(), i + ids.len() + cmdp.len())[0] == s[i6]);
        assert(cmdp[0] == ',');
    }
    lemma_p_int_enc(s, i5, p.pgid);
    // the command part
    let r2 = enc_str(p.cmd) + (",\"cwd\":"@ + enc_opt_str(p.cwd));
    lemma_subrange_cat(s, i6, ",\"cmd\":"@, r2);
    let i7 = i6 + ",\"cmd\":"@.len();
    assert(p_lit(s, i6, ",\"cmd\":"@) == Some(i7));
    lemma_subrange_cat(s, i7, enc_str(p.cmd), ",\"cwd\":"@ + enc_opt_str(p.cwd));
    lemma_p_string_enc(s, i7, p.cmd);
    let i8 = i7 + enc_str(p.cmd).len();
    lemma_subrange_cat(s, i8, ",\"cwd\":"@, enc_opt_str(p.cwd));
    let i9 = i8 + ",\"cwd\":"@.len();
    assert(p_lit(s, i8, ",\"cwd\":"@) == Some(i9));
    lemma_p_opt_str_enc(s, i9, p.cwd);
    let i10 = i9 + enc_opt_str(p.cwd).len();
    assert(i10 == i + ids.len() + cmdp.len());
    // the logs part
    let r3 = enc_str(p.stdout_log) + (",\"stderr_log\":"@ + (enc_str(p.stderr_log) + (
    ",\"started_at_ms\":"@ + (dec_int_seq(p.started_at_ms) + "}"@))));
    lemma_subrange_cat(s, i10, ",\"stdout_log\":"@, r3);
    let i11 = i10 + ",\"stdout_log\":"@.len();
    assert(p_lit(s, i10, ",\"stdout_log\":"@) == Some(i11));
    lemma_subrange_cat(
        s,
        i11,
        enc_str(p.stdout_log),
        ",\"stderr_log\":"@ + (enc_str(p.stderr_log) + (",\"started_at_ms\":"@ + (dec_int_seq(
            p.started_at_ms,
        ) + "}"@))),
    );
    lemma_p_string_enc(s, i11, p.stdout_log);
    let i12 = i11 + enc_str(p.stdout_log).len();
    lemma_subrange_cat(
        s,
        i12,
        ",\"stderr_log\":"@,
        enc_str(p.stderr_log) + (",\"started_at_ms\":"@ + (dec_int_seq(p.started_at_ms) + "}"@)),
    );
    let i13 = i12 + ",\"stderr_log\":"@.len();
    assert(p_lit(s, i12, ",\"stderr_log\":"@) == Some(i13));
    lemma_subrange_cat(
        s,
        i13,
        enc_str(p.stderr_log),
        ",\"started_at_ms\":"@ + (dec_int_seq(p.started_at_ms) + "}"@),
    );
    lemma_p_string_enc(s, i13, p.stderr_log);
    let i14 = i13 + enc_str(p.stderr_log).len();
    lemma_subrange_cat(
        s,
        i14,
        ",\"started_at_ms\":"@,
        dec_int_seq(p.started_at_ms) + "}"@,
    );
    let i15 = i14 + ",\"started_at_ms\":"@.len();
    assert(p_lit(s, i14, ",\"started_at_ms\":"@) == Some(i15));
    lemma_subrange_cat(s, i15, dec_int_seq(p.started_at_ms), "}"@);
    let i16 = i15 + dec_int_seq(p.started_at_ms).len();
    assert(s[i16] == '}') by {
        assert(s.subrange(i16, i16 + "}"@.len())[0] == s[i16]);
    }
    assert(!is_digit('}'));
    lemma_p_int_enc(s, i15, p.started_at_ms);
    let i17 = i16 + "}"@.len();
    assert(p_lit(s, i16, "}"@) == Some(i17));
    assert(i17 == i + enc_process(p).len());
    assert(p_process(s, i) == Some((p, i17)));
}

proof fn lemma_p_manager_bounds(s: Seq<char>, i: int)
    requires
        p_manager(s, i) is Some,
    ensures
        i < (p_manager(s, i)->0).1 <= s.len(),
{
    reveal(p_manager);
    match p_lit(s, i, "{\"pid\":"@) {
        None => {},
        Some(i1) => {
            if p_int(s, i1) is Some {
                lemma_p_int_bounds(s, i1);
                match p_int(s, i1) {
                    None => {},
                    Some((pid, i2)) => match p_lit(s, i2, ",\"started_at_ms\":"@) {
                        None => {},
                        Some(i3) => {
                            if p_int(s, i3) is Some {
                                lemma_p_int_bounds(s, i3);
                                match p_int(s, i3) {
                                    None => {},
                                    Some((ts, i4)) => match p_lit(s, i4, ",\"project_root\":"@) {
                                        None => {},
                                        Some(i5) => {
                                            if p_string(s, i5) is Some {
                                                lemma_p_string_bounds(s, i5);
                                                match p_string(s, i5) {
                                                    None => {},
                                                    Some((root, i6)) => match p_lit(
                                                        s,
                                                        i6,
                                                        ",\"version\":"@,
                                                    ) {
                                                        None => {},
                                                        Some(i7) => {
                                                            if p_int(s, i7) is Some {
                                                                lemma_p_int_bounds(s, i7);
                                                            }
                                                        },
                                                    },
                                                }
                                            }
                                        },
                                    },
                                }
                            }
                        },
                    },
                }
            }
        },
    }
}

/// The manager record at a position.
#[verifier::opaque]
pub open spec fn p_manager(s: Seq<char>, i: int) -> Option<(ManagerInfoV, int)> {
    match p_lit(s, i, "{\"pid\":"@) {
        None => None,
        Some(i1) => match p_int(s, i1) {
            None => None,
            Some((pid, i2)) => match p_lit(s, i2, ",\"started_at_ms\":"@) {
                None => None,
                Some(i3) => match p_int(s, i3) {
                    None => None,
                    Some((ts, i4)) => match p_lit(s, i4, ",\"project_root\":"@) {
                        None => None,
                        Some(i5) => match p_string(s, i5) {
                            None => None,
                            Some((root, i6)) => match p_lit(s, i6, ",\"version\":"@) {
                                None => None,
                                Some(i7) => match p_int(s, i7) {
                                    None => None,
                                    Some((ver, i8)) => match p_lit(s, i8, "}"@) {
                                        None => None,
                                        Some(i9) => Some(
                                            (
                                                ManagerInfoV {
                                                    pid,
                                                    started_at_ms: ts,
                                                    project_root: root,
                                                    version: ver,
                                                },
                                                i9,
                                            ),
                                        ),
                                    },
                                },
                            },
                        },
                    },
                },
            },
        },
    }
}

#[via_fn]
proof fn p_process_rest_dec(s: Seq<char>, i: int)
{
    if 0 <= i < s.len() && s[i] != ']' && s[i] == ',' {
        if p_process(s, i + 1) is Some {
            lemma_p_process_bounds(s, i + 1);
        }
    }
}

/// The remainder of a process list after its first element: either the
/// closing bracket, or a comma and a further element.
pub open spec fn p_process_rest(s: Seq<char>, i: int) -> Option<(Seq<ProcessInfoV>, int)>
    decreases s.len() - i,
        via p_process_rest_dec
{
    if !(0 <= i < s.len()) {
        None
    } else if s[i] == ']' {
        Some((Seq::<ProcessInfoV>::empty(), i + 1))
    } else if s[i] == ',' {
        match p_process(s, i + 1) {
            Some((p, j)) => match p_process_rest(s, j) {
                Some((ps, k)) => Some((seq![p] + ps, k)),
                None => None,
            },
            None => None,
        }
    } else {
        None
    }
}

/// A whole process list at a position.
pub open spec fn p_plist(s: Seq<char>, i: int) -> Option<(Seq<ProcessInfoV>, int)> {
    if 0 <= i < s.len() && s[i] == '[' {
        if i + 1 < s.len() && s[i + 1] == ']' {
            Some((Seq::<ProcessInfoV>::empty(), i + 2))
        } else {
            match p_process(s, i + 1) {
                Some((p, j)) => match p_process_rest(s, j) {
                    Some((ps, k)) => Some((seq![p] + ps, k)),
                    None => None,
                },
                None => None,
            }
        }
    } else {
        None
    }
}

/// A whole state value at a position.
pub open spec fn p_state(s: Seq<char>, i: int) -> Option<(ManagerStateV, int)> {
    match p_lit(s, i, "{\"manager\":"@) {
        None => None,
        Some(i1) => match p_manager(s, i1) {
            None => None,
            Some((m, i2)) => match p_lit(s, i2, ",\"processes\":"@) {
                None => None,
                Some(i3) => match p_plist(s, i3) {
                    None => None,
                    Some((ps, i4)) => match p_lit(s, i4, "}"@) {
                        None => None,
                        Some(i5) => Some((ManagerStateV { manager: m, processes: ps }, i5)),
                    },
                },
            },
        },
    }
}

/// What a state file's text means: a state value covering the whole text,
/// or nothing.
pub open spec fn decode_spec(s: Seq<char>) -> Option<ManagerStateV> {
    match p_state(s, 0) {
        Some((v, j)) => if j == s.len() {
            Some(v)
        } else {
            None
        },
        None => None,
    }
}

proof fn lemma_enc_process_rest_front(ps: Seq<ProcessInfoV>)
    requires
        ps.len() > 0,
    ensures
        enc_process_rest(ps) == ","@ + (enc_process(ps[0]) + enc_process_rest(ps.drop_first())),
    decreases ps.len(),
{
    if ps.len() == 1 {
        assert(ps.drop_last() =~= Seq::<ProcessInfoV>::empty());
        assert(ps.drop_first() =~= Seq::<ProcessInfoV>::empty());
        assert(enc_process_rest(ps) =~= ","@ + (enc_process(ps[0]) + enc_process_rest(
            ps.drop_first(),
        )));
    } else {
        lemma_enc_process_rest_front(ps.drop_last());
        assert(ps.drop_last()[0] == ps[0]);
        assert(ps.drop_last().drop_first() =~= ps.drop_first().drop_last());
        assert(ps.drop_first().last() == ps.last());
        assert(enc_process_rest(ps.drop_first()) == enc_process_rest(ps.drop_first().drop_last())
            + (","@ + enc_process(ps.drop_first().last())));
        assert(enc_process_rest(ps) =~= ","@ + (enc_process(ps[0]) + enc_process_rest(
            ps.drop_first(),
        )));
    }
}

#[verifier::rlimit(100)]
proof fn lemma_p_process_rest_enc(s: Seq<char>, i: int, ps: Seq<ProcessInfoV>)
    requires
        0 <= i,
        i + enc_process_rest(ps).len() + 1 <= s.len(),
        s.subrange(i, i + enc_process_rest(ps).len() + 1) == enc_process_rest(ps) + "]"@,
    ensures
        p_process_rest(s, i) == Some((ps, i + enc_process_rest(ps).len() + 1)),
    decreases ps.len(),
{
    reveal_strlit("]");
    reveal_strlit(",");
    reveal_strlit("{\"name\":");
    if ps.len() == 0 {
        assert(enc_process_rest(ps).len() == 0);
        assert(s.subrange(i, i + 1) == Seq::<char>::empty() + "]"@);
        assert(s.subrange(i, i + 1)[0] == s[i]);
        assert((Seq::<char>::empty() + "]"@)[0] == ']');
        assert(s[i] == ']');
    } else {
        lemma_enc_process_rest_front(ps);
        let p0 = ps[0];
        let tail = ps.drop_first();
        let whole = enc_process_rest(ps) + "]"@;
        assert(whole =~= ","@ + (enc_process(p0) + (enc_process_rest(tail) + "]"@)));
        lemma_subrange_cat(s, i, ","@, enc_process(p0) + (enc_process_rest(tail) + "]"@));
        assert(s.subrange(i, i + 1)[0] == s[i]);
        assert(s[i] == ',');
        assert(s[i] != ']');
        lemma_subrange_cat(s, i + 1, enc_process(p0), enc_process_rest(tail) + "]"@);
        lemma_p_process_enc(s, i + 1, p0);
        let j = i + 1 + enc_process(p0).len();
        lemma_p_process_rest_enc(s, j, tail);
        assert(seq![p0] + tail =~= ps);
    }
}

#[verifier::rlimit(100)]
proof fn lemma_p_plist_enc(s: Seq<char>, i: int, ps: Seq<ProcessInfoV>)
    requires
        0 <= i,
        i + enc_process_list(ps).len() <= s.len(),
        s.subrange(i, i + enc_process_list(ps).len()) == enc_process_list(ps),
    ensures
        p_plist(s, i) == Some((ps, i + enc_process_list(ps).len())),
{
    reveal_strlit("[]");
    reveal_strlit("[");
    reveal_strlit("]");
    reveal_strlit("{\"name\":");
    if ps.len() == 0 {
        assert(enc_process_list(ps) == "[]"@);
        assert(s.subrange(i, i + 2)[0] == s[i]);
        assert(s.subrange(i, i + 2)[1] == s[i + 1]);
        assert(s[i] == '[');
        assert(s[i + 1] == ']');
    } else {
        let p0 = ps.first();
        let tail = ps.drop_first();
        assert(enc_process_list(ps) == "["@ + (enc_process(p0) + (enc_process_rest(tail)
            + "]"@)));
        lemma_subrange_cat(s, i, "["@, enc_process(p0) + (enc_process_rest(tail) + "]"@));
        assert(s.subrange(i, i + 1)[0] == s[i]);
        assert(s[i] == '[');
        lemma_subrange_cat(s, i + 1, enc_process(p0), enc_process_rest(tail) + "]"@);
        lemma_p_process_enc(s, i + 1, p0);
        assert(s.subrange(i + 1, i + 1 + enc_process(p0).len())[0] == s[i + 1]);
        assert(enc_process(p0)[0] == '{');
        assert(s[i + 1] == '{');
        assert(s[i + 1] != ']');
        let j = i + 1 + enc_process(p0).len();
        lemma_p_process_rest_enc(s, j, tail);
        assert(seq![p0] + tail =~= ps);
    }
}

#[verifier::rlimit(100)]
proof fn lemma_p_manager_enc(s: Seq<char>, i: int, m: ManagerInfoV)
    requires
        0 <= i,
        i + enc_manager(m).len() <= s.len(),
        s.subrange(i, i + enc_manager(m).len()) == enc_manager(m),
    ensures
        p_manager(s, i) == Some((m, i + enc_manager(m).len())),
{
    reveal(p_manager);
    reveal_strlit("{\"pid\":");
    reveal_strlit(",\"started_at_ms\":");
    reveal_strlit(",\"project_root\":");
    reveal_strlit(",\"version\":");
    reveal_strlit("}");
    let r1 = dec_int_seq(m.pid) + (",\"started_at_ms\":"@ + (dec_int_seq(m.started_at_ms) + (
    ",\"project_root\":"@ + (enc_str(m.project_root) + (",\"version\":"@ + (dec_int_seq(m.version)
        + "}"@))))));
    lemma_subrange_cat(s, i, "{\"pid\":"@, r1);
    let i1 = i + "{\"pid\":"@.len();
    assert(p_lit(s, i, "{\"pid\":"@) == Some(i1));
    lemma_subrange_cat(
        s,
        i1,
        dec_int_seq(m.pid),
        ",\"started_at_ms\":"@ + (dec_int_seq(m.started_at_ms) + (",\"project_root\":"@ + (
        enc_str(m.project_root) + (",\"version\":"@ + (dec_int_seq(m.version) + "}"@))))),
    );
    let i2 = i1 + dec_int_seq(m.pid).len();
    assert(s[i2] == ',') by {
        assert(s.subrange(
            i2,
            i2 + (",\"started_at_ms\":"@ + (dec_int_seq(m.started_at_ms) + (",\"project_root\":"@
                + (enc_str(m.project_root) + (",\"version\":"@ + (dec_int_seq(m.version)
                + "}"@)))))).len(),
        )[0] == s[i2]);
    }
    assert(!is_digit(','));
    lemma_p_int_enc(s, i1, m.pid);
    lemma_subrange_cat(
        s,
        i2,
        ",\"started_at_ms\":"@,
        dec_int_seq(m.started_at_ms) + (",\"project_root\":"@ + (enc_str(m.project_root) + (
        ",\"version\":"@ + (dec_int_seq(m.version) + "}"@)))),
    );
    let i3 = i2 + ",\"started_at_ms\":"@.len();
    assert(p_lit(s, i2, ",\"started_at_ms\":"@) == Some(i3));
    lemma_subrange_cat(
        s,
        i3,
        dec_int_seq(m.started_at_ms),
        ",\"project_root\":"@ + (enc_str(m.project_root) + (",\"version\":"@ + (dec_int_seq(
            m.version,
        ) + "}"@))),
    );
    let i4 = i3 + dec_int_seq(m.started_at_ms).len();
    assert(s[i4] == ',') by {
        assert(s.subrange(
            i4,
            i4 + (",\"project_root\":"@ + (enc_str(m.project_root) + (",\"version\":"@ + (
            dec_int_seq(m.version) + "}"@)))).len(),
        )[0] == s[i4]);
    }
    lemma_p_int_enc(s, i3, m.started_at_ms);
    lemma_subrange_cat(
        s,
        i4,
        ",\"project_root\":"@,
        enc_str(m.project_root) + (",\"version\":"@ + (dec_int_seq(m.version) + "}"@)),
    );
    let i5 = i4 + ",\"project_root\":"@.len();
    assert(p_lit(s, i4, ",\"project_root\":"@) == Some(i5));
    lemma_subrange_cat(
        s,
        i5,
        enc_str(m.project_root),
        ",\"version\":"@ + (dec_int_seq(m.version) + "}"@),
    );
    lemma_p_string_enc(s, i5, m.project_root);
    let i6 = i5 + enc_str(m.project_root).len();
    lemma_subrange_cat(s, i6, ",\"version\":"@, dec_int_seq(m.version) + "}"@);
    let i7 = i6 + ",\"version\":"@.len();
    assert(p_lit(s, i6, ",\"version\":"@) == Some(i7));
    lemma_subrange_cat(s, i7, dec_int_seq(m.version), "}"@);
    let i8 = i7 + dec_int_seq(m.version).len();
    assert(s[i8] == '}') by {
        assert(s.subrange(i8, i8 + "}"@.len())[0] == s[i8]);
    }
    assert(!is_digit('}'));
    lemma_p_int_enc(s, i7, m.version);
    let i9 = i8 + "}"@.len();
    assert(p_lit(s, i8, "}"@) == Some(i9));
    assert(i9 == i + enc_manager(m).len());
}

/// Parsing inverts encoding for a whole state value: what `save` writes,
/// `load` reads back field for field.
#[verifier::rlimit(100)]
#[verifier::spinoff_prover]
pub proof fn lemma_decode_encode(v: ManagerStateV)
    ensures
        decode_spec(enc_state(v)) == Some(v),
{
    reveal_strlit("{\"manager\":");
    reveal_strlit(",\"processes\":");
    reveal_strlit("}");
    let s = enc_state(v);
    assert(s.subrange(0, s.len() as int) =~= s);
    let r1 = enc_manager(v.manager) + (",\"processes\":"@ + (enc_process_list(v.processes)
        + "}"@));
    lemma_subrange_cat(s, 0, "{\"manager\":"@, r1);
    let i1 = "{\"manager\":"@.len() as int;
    assert(p_lit(s, 0, "{\"manager\":"@) == Some(i1));
    lemma_subrange_cat(
        s,
        i1,
        enc_manager(v.manager),
        ",\"processes\":"@ + (enc_process_list(v.processes) + "}"@),
    );
    lemma_p_manager_enc(s, i1, v.manager);
    let i2 = i1 + enc_manager(v.manager).len();
    lemma_subrange_cat(s, i2, ",\"processes\":"@, enc_process_list(v.processes) + "}"@);
    let i3 = i2 + ",\"processes\":"@.len();
    assert(p_lit(s, i2, ",\"processes\":"@) == Some(i3));
    lemma_subrange_cat(s, i3, enc_process_list(v.processes), "}"@);
    lemma_p_plist_enc(s, i3, v.processes);
    let i4 = i3 + enc_process_list(v.processes).len();
    let i5 = i4 + "}"@.len();
    assert(p_lit(s, i4, "}"@) == Some(i5));
    assert(i5 == s.len());
    assert(p_state(s, 0) == Some((v, i5)));
}

// ---------------------------------------------------------------------
// The executable decoder. Each function mirrors its specification
// parser; numeric fields are additionally checked against their machine
// ranges, and a value outside them makes the whole decode fail.
// ---------------------------------------------------------------------

/// Whether a parsed process fits the machine representation.
pub open spec fn proc_ok(p: ProcessInfoV) -> bool {
    &&& 0 <= p.pid <= u32::MAX
    &&& i32::MIN <= p.pgid <= i32::MAX
    &&& i64::MIN <= p.started_at_ms <= i64::MAX
}

pub open spec fn all_procs_ok(ps: Seq<ProcessInfoV>) -> bool {
    forall|i: int| 0 <= i < ps.len() ==> proc_ok(#[trigger] ps[i])
}

/// Whether a parsed manager record fits the machine representation.
pub open spec fn mgr_ok(m: ManagerInfoV) -> bool {
    &&& 0 <= m.pid <= u32::MAX
    &&& i64::MIN <= m.started_at_ms <= i64::MAX
    &&& 0 <= m.version <= u32::MAX
}

pub open spec fn state_ok(v: ManagerStateV) -> bool {
    mgr_ok(v.manager) && all_procs_ok(v.processes)
}

fn exec_lit(cs: &Vec<char>, i: usize, lit: &str) -> (r: Option<usize>)
    ensures
        (match p_lit(cs@, i as int, lit@) {
            Some(j) => r matches Some(x) && x == j,
            None => r is None,
        }),
{
    let lc = crate::strutil::str_chars(lit);
    let n = cs.len();
    if i > n || n - i < lc.len() {
        return None;
    }
    let mut k: usize = 0;
    while k < lc.len()
        invariant
            k <= lc@.len(),
            lc@ == lit@,
            n == cs@.len(),
            i + lc@.len() <= n,
            forall|t: int| 0 <= t < k ==> cs@[i + t] == lit@[t],
        decreases lc@.len() - k,
    {
        if cs[i + k] != lc[k] {
            proof {
                if p_lit(cs@, i as int, lit@) is Some {
                    assert(cs@.subrange(i as int, i + lit@.len()) == lit@);
                    assert(cs@.subrange(i as int, i + lit@.len())[k as int] == cs@[i + k]);
                    assert(false);
                }
            }
            return None;
        }
        k = k + 1;
    }
    proof {
        assert(cs@.subrange(i as int, i + lit@.len()) =~= lit@);
    }
    Some(i + lc.len())
}

proof fn lemma_digits_end_props(s: Seq<char>, i: int)
    requires
        0 <= i <= s.len(),
    ensures
        i <= digits_end(s, i) <= s.len(),
        forall|k: int| i <= k < digits_end(s, i) ==> is_digit(s[k]),
        digits_end(s, i) == s.len() || !is_digit(s[digits_end(s, i)]),
    decreases s.len() - i,
{
    if i < s.len() && is_digit(s[i]) {
        lemma_digits_end_props(s, i + 1);
    }
}

fn exec_digits_end(cs: &Vec<char>, i: usize) -> (r: usize)
    requires
        i <= cs@.len(),
    ensures
        r == digits_end(cs@, i as int),
        i <= r <= cs@.len(),
{
    let mut j = i;
    while j < cs.len() && crate::num::is_digit_char(cs[j])
        invariant
            i <= j <= cs@.len(),
            digits_end(cs@, i as int) == digits_end(cs@, j as int),
        decreases cs@.len() - j,
    {
        j = j + 1;
    }
    j
}

/// Parse an integer at a position, rejecting values outside the 64-bit
/// signed range.
fn exec_int(cs: &Vec<char>, i: usize) -> (r: Option<(i64, usize)>)
    requires
        i <= cs@.len(),
    ensures
        (match p_int(cs@, i as int) {
            Some(ve) => if i64::MIN <= ve.0 <= i64::MAX {
                r matches Some(x) && x.0 == ve.0 && x.1 == ve.1
            } else {
                r is None
            },
            None => r is None,
        }),
{
    let neg = i < cs.len() && cs[i] == '-';
    let start: usize = if neg {
        i + 1
    } else {
        i
    };
    let e = exec_digits_end(cs, start);
    if e == start {
        return None;
    }
    let ghost body = cs@.subrange(start as int, e as int);
    proof {
        lemma_digits_end_props(cs@, start as int);
        assert(all_digits(body));
    }
    let mut acc: u64 = 0;
    let mut k = start;
    while k < e
        invariant
            start <= k <= e <= cs@.len(),
            e == digits_end(cs@, start as int),
            neg ==> i < cs@.len() && cs@[i as int] == '-' && start == i + 1,
            !neg ==> start == i && !(0 <= i < cs@.len() && cs@[i as int] == '-'),
            body == cs@.subrange(start as int, e as int),
            all_digits(body),
            acc == digits_val(body.take(k - start)),
            acc <= 0x8000_0000_0000_0000u64,
        decreases e - k,
    {
        let c = cs[k];
        proof {
            assert(body[k - start] == cs@[k as int]);
            assert(is_digit(c));
            assert(body.take(k - start + 1).drop_last() =~= body.take(k - start));
            assert(body.take(k - start + 1).last() == c);
        }
        let d: u64 = (c as u64) - 48;
        if acc > 922337203685477580u64 || (acc == 922337203685477580u64 && d > 8) {
            proof {
                crate::num::lemma_digits_val_nonneg(body.take(k - start));
                assert(digits_val(body.take(k - start + 1)) == acc * 10 + d);
                crate::num::lemma_digits_val_prefix(body, k - start + 1);
                assert(digits_val(body) > 0x8000_0000_0000_0000);
                assert(digits_end(cs@, start as int) == e as int);
                if neg {
                    assert(0 <= i < cs@.len() && cs@[i as int] == '-');
                    assert(start as int == i + 1);
                    assert(e > i + 1);
                    assert(p_int(cs@, i as int) == Some(
                        (-digits_val(body), e as int),
                    ));
                    assert(-digits_val(body) < i64::MIN);
                } else {
                    assert(!(0 <= i < cs@.len() && cs@[i as int] == '-'));
                    assert(start as int == i as int);
                    assert(e > i);
                    assert(p_int(cs@, i as int) == Some((digits_val(body), e as int)));
                    assert(digits_val(body) > i64::MAX);
                }
            }
            return None;
        }
        acc = acc * 10 + d;
        k = k + 1;
    }
    proof {
        assert(body.take(e - start) =~= body);
    }
    if neg {
        if acc == 0x8000_0000_0000_0000u64 {
            Some((i64::MIN, e))
        } else {
            Some((-(acc as i64), e))
        }
    } else {
        if acc == 0x8000_0000_0000_0000u64 {
            proof {
                assert(p_int(cs@, i as int) == Some((digits_val(body), e as int)));
            }
            None
        } else {
            Some((acc as i64, e))
        }
    }
}

fn is_escape_code_exec(c: char) -> (r: bool)
    ensures
        r == is_escape_code(c),
{
    c == '\\' || c == '"' || c == 'n'
}

fn exec_str_end(cs: &Vec<char>, i: usize) -> (r: Option<usize>)
    requires
        i <= cs@.len(),
    ensures
        (match r {
            Some(e) => str_end(cs@, i as int) == e && i <= e < cs@.len(),
            None => str_end(cs@, i as int) == -1,
        }),
{
    let mut j = i;
    loop
        invariant
            i <= j <= cs@.len(),
            str_end(cs@, i as int) == str_end(cs@, j as int),
        decreases cs@.len() - j,
    {
        if j >= cs.len() {
            return None;
        }
        let c = cs[j];
        if c == '"' {
            return Some(j);
        }
        if c == '\\' {
            if j + 1 < cs.len() && is_escape_code_exec(cs[j + 1]) {
                j = j + 2;
            } else {
                return None;
            }
        } else {
            j = j + 1;
        }
    }
}

/// Well-formed escaped content: escapes are complete and no raw quote
/// appears.
pub open spec fn esc_wf(b: Seq<char>) -> bool
    decreases b.len(),
{
    if b.len() == 0 {
        true
    } else if b[0] == '\\' {
        b.len() >= 2 && is_escape_code(b[1]) && esc_wf(b.skip(2))
    } else {
        b[0] != '"' && esc_wf(b.skip(1))
    }
}

proof fn lemma_str_end_wf(s: Seq<char>, i: int)
    requires
        0 <= i,
        str_end(s, i) >= 0,
    ensures
        esc_wf(s.subrange(i, str_end(s, i))),
    decreases s.len() - i,
{
    let e = str_end(s, i);
    lemma_str_end_ge(s, i);
    if s[i] == '"' {
        assert(s.subrange(i, e) =~= Seq::<char>::empty());
    } else if s[i] == '\\' {
        lemma_str_end_wf(s, i + 2);
        lemma_str_end_ge(s, i + 2);
        assert(e >= i + 2);
        assert(s.subrange(i, e)[0] == s[i]);
        assert(s.subrange(i, e)[1] == s[i + 1]);
        assert(s.subrange(i, e).skip(2) =~= s.subrange(i + 2, e));
    } else {
        lemma_str_end_wf(s, i + 1);
        lemma_str_end_ge(s, i + 1);
        assert(e >= i + 1);
        assert(s.subrange(i, e)[0] == s[i]);
        assert(s.subrange(i, e).skip(1) =~= s.subrange(i + 1, e));
    }
}

fn unesc_code_exec(c: char) -> (r: char)
    ensures
        r == unesc_code(c),
{
    if c == 'n' {
        '\n'
    } else {
        c
    }
}

fn exec_unescape(body: &[char]) -> (r: String)
    requires
        esc_wf(body@),
    ensures
        r@ == unesc_str(body@),
{
    let mut out = String::new();
    let mut k: usize = 0;
    proof {
        assert(body@.skip(0) =~= body@);
    }
    while k < body.len()
        invariant
            k <= body@.len(),
            esc_wf(body@.skip(k as int)),
            unesc_str(body@) == out@ + unesc_str(body@.skip(k as int)),
        decreases body@.len() - k,
    {
        let c = body[k];
        let ghost suf = body@.skip(k as int);
        proof {
            assert(suf[0] == c);
        }
        if c == '\\' {
            proof {
                assert(suf.len() >= 2);
                assert(suf[1] == body@[k + 1]);
                assert(suf.skip(2) =~= body@.skip(k + 2));
            }
            crate::strutil::push_char(&mut out, unesc_code_exec(body[k + 1]));
            k = k + 2;
        } else {
            proof {
                assert(suf.skip(1) =~= body@.skip(k + 1));
            }
            crate::strutil::push_char(&mut out, c);
            k = k + 1;
        }
    }
    proof {
        assert(body@.skip(body@.len() as int) =~= Seq::<char>::empty());
    }
    out
}

fn exec_string(cs: &Vec<char>, i: usize) -> (r: Option<(String, usize)>)
    ensures
        (match p_string(cs@, i as int) {
            Some(ve) => r matches Some(x) && x.0@ == ve.0 && x.1 == ve.1,
            None => r is None,
        }),
{
    if i >= cs.len() {
        return None;
    }
    if cs[i] != '"' {
        return None;
    }
    match exec_str_end(cs, i + 1) {
        None => None,
        Some(e) => {
            proof {
                lemma_str_end_wf(cs@, i + 1);
            }
            let body = &cs.as_slice()[i + 1..e];
            let out = exec_unescape(body);
            Some((out, e + 1))
        },
    }
}

fn exec_opt_str(cs: &Vec<char>, i: usize) -> (r: Option<(Option<String>, usize)>)
    ensures
        (match p_opt_str(cs@, i as int) {
            Some(ve) => r matches Some(x) && (match (x.0, ve.0) {
                (Some(a), Some(b)) => a@ == b,
                (None, None) => true,
                _ => false,
            }) && x.1 == ve.1,
            None => r is None,
        }),
{
    match exec_lit(cs, i, "null") {
        Some(j) => Some((None, j)),
        None => match exec_string(cs, i) {
            Some((v, e)) => Some((Some(v), e)),
            None => None,
        },
    }
}

/// Parse one process record, rejecting ids outside their machine ranges.
#[verifier::rlimit(100)]
fn exec_process(cs: &Vec<char>, i: usize) -> (r: Option<(ProcessInfo, usize)>)
    ensures
        (match p_process(cs@, i as int) {
            Some(ve) => if proc_ok(ve.0) {
                r matches Some(x) && view_process(x.0) == ve.0 && x.1 == ve.1
            } else {
                r is None
            },
            None => r is None,
        }),
{
    proof {
        reveal(p_process);
    }
    let i1 = match exec_lit(cs, i, "{\"name\":") {
        Some(x) => x,
        None => {
            return None;
        },
    };
    let (name, i2) = match exec_string(cs, i1) {
        Some(x) => x,
        None => {
            return None;
        },
    };
    let i3 = match exec_lit(cs, i2, ",\"pid\":") {
        Some(x) => x,
        None => {
            return None;
        },
    };
    proof {
        lemma_p_string_bounds(cs@, i1 as int);
    }
    let (pid_raw, i4) = match exec_int(cs, i3) {
        Some(x) => x,
        None => {
            return None;
        },
    };
    if pid_raw < 0 || pid_raw > 0xffff_ffffi64 {
        return None;
    }
    let i5 = match exec_lit(cs, i4, ",\"pgid\":") {
        Some(x) => x,
        None => {
            return None;
        },
    };
    proof {
        lemma_p_int_bounds(cs@, i3 as int);
    }
    let (pgid_raw, i6) = match exec_int(cs, i5) {
        Some(x) => x,
        None => {
            return None;
        },
    };
    if pgid_raw < i32::MIN as i64 || pgid_raw > i32::MAX as i64 {
        return None;
    }
    let i7 = match exec_lit(cs, i6, ",\"cmd\":") {
        Some(x) => x,
        None => {
            return None;
        },
    };
    let (cmd, i8) = match exec_string(cs, i7) {
        Some(x) => x,
        None => {
            return None;
        },
    };
    let i9 = match exec_lit(cs, i8, ",\"cwd\":") {
        Some(x) => x,
        None => {
            return None;
        },
    };
    let (cwd, i10) = match exec_opt_str(cs, i9) {
        Some(x) => x,
        None => {
            return None;
        },
    };
    let i11 = match exec_lit(cs, i10, ",\"stdout_log\":") {
        Some(x) => x,
        None => {
            return None;
        },
    };
    let (so, i12) = match exec_string(cs, i11) {
        Some(x) => x,
        None => {
            return None;
        },
    };
    let i13 = match exec_lit(cs, i12, ",\"stderr_log\":") {
        Some(x) => x,
        None => {
            return None;
        },
    };
    let (se, i14) = match exec_string(cs, i13) {
        Some(x) => x,
        None => {
            return None;
        },
    };
    let i15 = match exec_lit(cs, i14, ",\"started_at_ms\":") {
        Some(x) => x,
        None => {
            return None;
        },
    };
    let (ts, i16) = match exec_int(cs, i15) {
        Some(x) => x,
        None => {
            return None;
        },
    };
    let i17 = match exec_lit(cs, i16, "}") {
        Some(x) => x,
        None => {
            return None;
        },
    };
    let p = ProcessInfo {
        name,
        pid: pid_raw as u32,
        pgid: pgid_raw as i32,
        cmd,
        cwd,
        stdout_log: so,
        stderr_log: se,
        started_at_ms: ts,
    };
    Some((p, i17))
}

/// Parse the remainder of a process list.
fn exec_process_rest(cs: &Vec<char>, i: usize) -> (r: Option<(Vec<ProcessInfo>, usize)>)
    ensures
        (match p_process_rest(cs@, i as int) {
            Some(ve) => if all_procs_ok(ve.0) {
                r matches Some(x) && x.0@.map_values(|p: ProcessInfo| view_process(p)) == ve.0
                    && x.1 == ve.1
            } else {
                r is None
            },
            None => r is None,
        }),
    decreases cs@.len() - i,
{
    if i >= cs.len() {
        return None;
    }
    let c = cs[i];
    if c == ']' {
        let out: Vec<ProcessInfo> = Vec::new();
        proof {
            assert(out@.map_values(|p: ProcessInfo| view_process(p)) =~= Seq::<
                ProcessInfoV,
            >::empty());
        }
        return Some((out, i + 1));
    }
    if c != ',' {
        return None;
    }
    match exec_process(cs, i + 1) {
        None => {
            proof {
                match p_process(cs@, i + 1) {
                    Some((pv, j)) => {
                        assert(!proc_ok(pv));
                        match p_process_rest(cs@, j) {
                            Some((ps, k)) => {
                                assert((seq![pv] + ps)[0] == pv);
                                assert(!all_procs_ok(seq![pv] + ps));
                            },
                            None => {},
                        }
                    },
                    None => {},
                }
            }
            None
        },
        Some((p, j)) => {
            proof {
                lemma_p_process_bounds(cs@, i + 1);
            }
            match exec_process_rest(cs, j) {
                None => {
                    proof {
                        let pv = (p_process(cs@, i + 1)->0).0;
                        match p_process_rest(cs@, j as int) {
                            Some((ps, k)) => {
                                assert(!all_procs_ok(ps));
                                let w = choose|w: int| 0 <= w < ps.len() && !proc_ok(ps[w]);
                                assert((seq![pv] + ps)[w + 1] == ps[w]);
                                assert(!all_procs_ok(seq![pv] + ps));
                            },
                            None => {},
                        }
                    }
                    None
                },
                Some((mut rest, k)) => {
                    let ghost prior = rest@;
                    rest.insert(0, p);
                    proof {
                        let pv = (p_process(cs@, i + 1)->0).0;
                        let ps = (p_process_rest(cs@, j as int)->0).0;
                        let f = |q: ProcessInfo| view_process(q);
                        assert(rest@ =~= seq![p] + prior);
                        assert forall|t: int| 0 <= t < rest@.len() implies rest@.map_values(f)[t]
                            == (seq![pv] + ps)[t] by {
                            if t == 0 {
                                assert(rest@[0] == p);
                            } else {
                                assert(rest@[t] == prior[t - 1]);
                                assert(prior.map_values(f)[t - 1] == f(prior[t - 1]));
                            }
                        }
                        assert(rest@.map_values(f) =~= seq![pv] + ps);
                        assert(all_procs_ok(seq![pv] + ps)) by {
                            assert forall|t: int|
                                0 <= t < (seq![pv] + ps).len() implies proc_ok(
                                #[trigger] (seq![pv] + ps)[t],
                            ) by {
                                if t == 0 {
                                } else {
                                    assert((seq![pv] + ps)[t] == ps[t - 1]);
                                }
                            }
                        }
                    }
                    Some((rest, k))
                },
            }
        },
    }
}

/// Parse a whole process list.
fn exec_plist(cs: &Vec<char>, i: usize) -> (r: Option<(Vec<ProcessInfo>, usize)>)
    ensures
        (match p_plist(cs@, i as int) {
            Some(ve) => if all_procs_ok(ve.0) {
                r matches Some(x) && x.0@.map_values(|p: ProcessInfo| view_process(p)) == ve.0
                    && x.1 == ve.1
            } else {
                r is None
            },
            None => r is None,
        }),
{
    if i >= cs.len() {
        return None;
    }
    if cs[i] != '[' {
        return None;
    }
    if i + 1 < cs.len() && cs[i + 1] == ']' {
        let out: Vec<ProcessInfo> = Vec::new();
        proof {
            assert(out@.map_values(|p: ProcessInfo| view_process(p)) =~= Seq::<
                ProcessInfoV,
            >::empty());
        }
        return Some((out, i + 2));
    }
    match exec_process(cs, i + 1) {
        None => {
            proof {
                match p_process(cs@, i + 1) {
                    Some((pv, j)) => {
                        assert(!proc_ok(pv));
                        match p_process_rest(cs@, j) {
                            Some((ps, k)) => {
                                assert((seq![pv] + ps)[0] == pv);
                                assert(!all_procs_ok(seq![pv] + ps));
                            },
                            None => {},
                        }
                    },
                    None => {},
                }
            }
            None
        },
        Some((p, j)) => {
            match exec_process_rest(cs, j) {
                None => {
                    proof {
                        let pv = (p_process(cs@, i + 1)->0).0;
                        match p_process_rest(cs@, j as int) {
                            Some((ps, k)) => {
                                assert(!all_procs_ok(ps));
                                let w = choose|w: int| 0 <= w < ps.len() && !proc_ok(ps[w]);
                                assert((seq![pv] + ps)[w + 1] == ps[w]);
                                assert(!all_procs_ok(seq![pv] + ps));
                            },
                            None => {},
                        }
                    }
                    None
                },
                Some((mut rest, k)) => {
                    let ghost prior = rest@;
                    rest.insert(0, p);
                    proof {
                        let pv = (p_process(cs@, i + 1)->0).0;
                        let ps = (p_process_rest(cs@, j as int)->0).0;
                        let f = |q: ProcessInfo| view_process(q);
                        assert(rest@ =~= seq![p] + prior);
                        assert forall|t: int| 0 <= t < rest@.len() implies rest@.map_values(f)[t]
                            == (seq![pv] + ps)[t] by {
                            if t == 0 {
                                assert(rest@[0] == p);
                            } else {
                                assert(rest@[t] == prior[t - 1]);
                                assert(prior.map_values(f)[t - 1] == f(prior[t - 1]));
                            }
                        }
                        assert(rest@.map_values(f) =~= seq![pv] + ps);
                        assert(all_procs_ok(seq![pv] + ps)) by {
                            assert forall|t: int|
                                0 <= t < (seq![pv] + ps).len() implies proc_ok(
                                #[trigger] (seq![pv] + ps)[t],
                            ) by {
                                if t == 0 {
                                } else {
                                    assert((seq![pv] + ps)[t] == ps[t - 1]);
                                }
                            }
                        }
                    }
                    Some((rest, k))
                },
            }
        },
    }
}

/// Parse the manager record, rejecting ids outside their machine ranges.
fn exec_manager(cs: &Vec<char>, i: usize) -> (r: Option<(ManagerInfo, usize)>)
    ensures
        (match p_manager(cs@, i as int) {
            Some(ve) => if mgr_ok(ve.0) {
                r matches Some(x) && view_manager(x.0) == ve.0 && x.1 == ve.1
            } else {
                r is None
            },
            None => r is None,
        }),
{
    proof {
        reveal(p_manager);
    }
    let i1 = match exec_lit(cs, i, "{\"pid\":") {
        Some(x) => x,
        None => {
            return None;
        },
    };
    let (pid_raw, i2) = match exec_int(cs, i1) {
        Some(x) => x,
        None => {
            return None;
        },
    };
    if pid_raw < 0 || pid_raw > 0xffff_ffffi64 {
        return None;
    }
    let i3 = match exec_lit(cs, i2, ",\"started_at_ms\":") {
        Some(x) => x,
        None => {
            return None;
        },
    };
    let (ts, i4) = match exec_int(cs, i3) {
        Some(x) => x,
        None => {
            return None;
        },
    };
    let i5 = match exec_lit(cs, i4, ",\"project_root\":") {
        Some(x) => x,
        None => {
            return None;
        },
    };
    let (root, i6) = match exec_string(cs, i5) {
        Some(x) => x,
        None => {
            return None;
        },
    };
    let i7 = match exec_lit(cs, i6, ",\"version\":") {
        Some(x) => x,
        None => {
            return None;
        },
    };
    let (ver_raw, i8) = match exec_int(cs, i7) {
        Some(x) => x,
        None => {
            return None;
        },
    };
    if ver_raw < 0 || ver_raw > 0xffff_ffffi64 {
        return None;
    }
    let i9 = match exec_lit(cs, i8, "}") {
        Some(x) => x,
        None => {
            return None;
        },
    };
    let m = ManagerInfo {
        pid: pid_raw as u32,
        started_at_ms: ts,
        project_root: root,
        version: ver_raw as u32,
    };
    Some((m, i9))
}

/// Decode a state file's text. Absence of a valid, fully-consumed state
/// object (or a numeric field outside its machine range) is reported as
/// nothing, a recoverable condition for every caller.
pub fn decode_state(s: &str) -> (r: Option<ManagerState>)
    ensures
        (match decode_spec(s@) {
            Some(v) => if state_ok(v) {
                r matches Some(st) && view_state(st) == v
            } else {
                r is None
            },
            None => r is None,
        }),
{
    let cs = crate::strutil::str_chars(s);
    let i1 = match exec_lit(&cs, 0, "{\"manager\":") {
        Some(x) => x,
        None => {
            return None;
        },
    };
    let (m, i2) = match exec_manager(&cs, i1) {
        Some(x) => x,
        None => {
            return None;
        },
    };
    let i3 = match exec_lit(&cs, i2, ",\"processes\":") {
        Some(x) => x,
        None => {
            return None;
        },
    };
    let (procs, i4) = match exec_plist(&cs, i3) {
        Some(x) => x,
        None => {
            return None;
        },
    };
    let i5 = match exec_lit(&cs, i4, "}") {
        Some(x) => x,
        None => {
            return None;
        },
    };
    if i5 != cs.len() {
        return None;
    }
    let st = ManagerState { manager: m, processes: procs };
    Some(st)
}

/// What `save` writes, `load` reads back field for field: encoding then
/// decoding reproduces any state value exactly, and an encoded real state
/// always fits the machine ranges.
pub proof fn lemma_save_load_round_trip(st: ManagerState)
    ensures
        decode_spec(enc_state(view_state(st))) == Some(view_state(st)),
        state_ok(view_state(st)),
{
    lemma_decode_encode(view_state(st));
    let v = view_state(st);
    assert forall|t: int| 0 <= t < v.processes.len() implies proc_ok(#[trigger] v.processes[t]) by {
        assert(v.processes[t] == view_process(st.processes@[t]));
    }
}

} // verus!
