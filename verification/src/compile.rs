//! The two-pass assembler. Pass one walks the source lines of one unit:
//! labels are recorded against the current output index, `.string` and
//! `.zero` directives carve the data segment out of the top of the stack
//! segment, and every other non-blank line is appended to the program.
//! Pass two rewrites the symbolic target of every jump, branch, `call`,
//! `lla` and `la` instruction to its resolved numeric address. The symbol
//! table, the output program and the data segment size are shared across
//! units, so labels are global and one unit may jump into another.

use crate::error::{ErrView, VmError};
use crate::instruction::{decode, spec_decode, spec_head_tail, Instruction};
use crate::memory::{Memory, MemView};
use crate::registers::spec_register_index;
use crate::registers::register_index;
use crate::text::{
    ascii_bytes, clean_line, dec_digits, find_byte, first_pos, has_prefix, has_suffix, is_tok,
    lemma_first_pos, parse_int, render_dec, spec_clean_line, spec_has_prefix, spec_has_suffix,
    spec_parse_int, spec_split, spec_trim, split_bytes, str_to_bytes, trim, views_of,
};
use vstd::prelude::*;

verus! {

// ---------------------------------------------------------------------------
// The symbol table
// ---------------------------------------------------------------------------

/// The views of a symbol table's entries.
pub open spec fn sym_views(s: Seq<(Vec<u8>, usize)>) -> Seq<(Seq<u8>, usize)> {
    s.map_values(|p: (Vec<u8>, usize)| (p.0@, p.1))
}

/// The value bound to a label; a later binding shadows an earlier one.
pub open spec fn sym_lookup(s: Seq<(Seq<u8>, usize)>, k: Seq<u8>) -> Option<usize>
    decreases s.len(),
{
    if s.len() == 0 {
        None
    } else if s.last().0 == k {
        Some(s.last().1)
    } else {
        sym_lookup(s.drop_last(), k)
    }
}

/// Looks a label up in the table, newest binding first.
pub fn sym_lookup_exec(t: &Vec<(Vec<u8>, usize)>, k: &[u8]) -> (r: Option<usize>)
    ensures
        r == sym_lookup(sym_views(t@), k@),
{
    let mut i: usize = t.len();
    proof {
        assert(sym_views(t@).take(i as int) =~= sym_views(t@));
    }
    while i > 0
        invariant
            i <= t@.len(),
            sym_lookup(sym_views(t@), k@) == sym_lookup(sym_views(t@).take(i as int), k@),
        decreases i,
    {
        i -= 1;
        proof {
            assert(sym_views(t@).take(i as int + 1).drop_last() =~= sym_views(t@).take(i as int));
            assert(sym_views(t@).take(i as int + 1).last() == sym_views(t@)[i as int]);
        }
        if crate::text::bytes_eq(t[i].0.as_slice(), k) {
            return Some(t[i].1);
        }
    }
    None
}

// ---------------------------------------------------------------------------
// The unescape crate, behind its trusted wrapper
// ---------------------------------------------------------------------------

/// What `unescape_text` turns a quoted literal's body into: the bytes
/// decoded as UTF-8, every written-out backslash escape replaced by the
/// character it names, re-encoded as bytes; nothing when the bytes are not
/// UTF-8 or an escape is invalid. The result depends on the input alone.
pub uninterp spec fn unescaped(s: Seq<u8>) -> Option<Seq<u8>>;

/// Relies on `unescape::unescape`: a pure function from the input
/// characters to the unescaped text, `None` on an invalid escape. The
/// wrapper converts bytes to `&str` on the way in and back to bytes on the
/// way out, folding a non-UTF-8 input into the `None` case.
#[verifier::external_body]
fn unescape_text(s: &[u8]) -> (r: Option<Vec<u8>>)
    ensures
        r matches Some(v) ==> unescaped(s@) == Some(v@),
        r is None ==> unescaped(s@) is None,
{
    match core::str::from_utf8(s) {
        Ok(t) => unescape::unescape(t).map(|u| u.into_bytes()),
        Err(_) => None,
    }
}

// ---------------------------------------------------------------------------
// Pass one: one line at a time
// ---------------------------------------------------------------------------

/// The assembler's running state: the memory being pre-populated, the
/// program so far, the cumulative data segment size, the symbol table, and
/// the most recent label (which a following directive binds).
#[verifier::ext_equal]
pub ghost struct AsmView {
    pub mem: MemView,
    pub program: Seq<Seq<u8>>,
    pub dss: int,
    pub syms: Seq<(Seq<u8>, usize)>,
    pub last_label: Seq<u8>,
}

/// What `.string` does from a cleaned line: the token after the first
/// space, stripped of its first and last byte (the quotes), is unescaped;
/// the bytes plus a trailing NUL grow the data segment downward from the
/// top of the address space, and the preceding label is bound to the
/// data's starting address.
pub open spec fn spec_string_directive(st: AsmView, l: Seq<u8>) -> Result<AsmView, ErrView> {
    match first_pos(l, 32) {
        None => Err(ErrView::MalformedOperand(l)),
        Some(sp) => {
            let tok = spec_trim(l.skip(sp as int + 1));
            if tok.len() < 2 {
                Err(ErrView::MalformedOperand(l))
            } else {
                match unescaped(tok.subrange(1, tok.len() - 1)) {
                    None => Err(ErrView::MalformedOperand(l)),
                    Some(data) => {
                        let dss2 = st.dss + data.len() + 1;
                        if dss2 > st.mem.stack.len() {
                            Err(ErrView::OutOfBounds(st.mem.total as i64))
                        } else {
                            Ok(
                                AsmView {
                                    mem: st.mem.write_bytes(st.mem.total - dss2, data.push(0)),
                                    dss: dss2,
                                    syms: st.syms.push(
                                        (st.last_label, (st.mem.total - dss2) as usize),
                                    ),
                                    ..st
                                },
                            )
                        }
                    },
                }
            }
        },
    }
}

/// What `.zero` does from a cleaned line: the decimal count after the
/// first space reserves that many bytes of the data segment without
/// writing them (memory is zero at rest), and binds the preceding label.
pub open spec fn spec_zero_directive(st: AsmView, l: Seq<u8>) -> Result<AsmView, ErrView> {
    match first_pos(l, 32) {
        None => Err(ErrView::MalformedOperand(l)),
        Some(sp) => {
            let tok = spec_trim(l.skip(sp as int + 1));
            match spec_parse_int(tok) {
                None => Err(ErrView::MalformedOperand(l)),
                Some(n) => {
                    if n < 0 {
                        Err(ErrView::MalformedOperand(l))
                    } else {
                        let dss2 = st.dss + n;
                        if dss2 > st.mem.total {
                            Err(ErrView::OutOfBounds(st.mem.total as i64))
                        } else {
                            Ok(
                                AsmView {
                                    dss: dss2,
                                    syms: st.syms.push(
                                        (st.last_label, (st.mem.total - dss2) as usize),
                                    ),
                                    ..st
                                },
                            )
                        }
                    }
                },
            }
        },
    }
}

/// Pass one on a single raw source line: clean it, then classify it as a
/// label definition, a data directive, a blank, or an instruction.
pub open spec fn spec_line_step(st: AsmView, raw: Seq<u8>) -> Result<AsmView, ErrView> {
    let l = spec_clean_line(raw);
    if l.len() > 0 && l.last() == 58 {
        let name = l.drop_last();
        Ok(
            AsmView {
                syms: st.syms.push((name, st.program.len() as usize)),
                last_label: name,
                ..st
            },
        )
    } else if l.len() > 0 && l[0] == 46 {
        if spec_has_prefix(l, ascii_bytes(".string"@)) {
            spec_string_directive(st, l)
        } else if spec_has_prefix(l, ascii_bytes(".zero"@)) {
            spec_zero_directive(st, l)
        } else {
            Ok(st)
        }
    } else if l.len() == 0 {
        Ok(st)
    } else {
        Ok(AsmView { program: st.program.push(l), ..st })
    }
}

/// Pass one over a list of lines, stopping at the first fatal line. The
/// state carried out on an error is the state before the offending line.
pub open spec fn spec_pass1(st: AsmView, lines: Seq<Seq<u8>>) -> (AsmView, Option<ErrView>)
    decreases lines.len(),
{
    if lines.len() == 0 {
        (st, None)
    } else {
        match spec_line_step(st, lines[0]) {
            Err(e) => (st, Some(e)),
            Ok(st2) => spec_pass1(st2, lines.drop_first()),
        }
    }
}

pub proof fn lemma_pass1_append(st: AsmView, a: Seq<Seq<u8>>, b: Seq<Seq<u8>>)
    ensures
        spec_pass1(st, a + b) == ({
            let r = spec_pass1(st, a);
            if r.1 is Some {
                r
            } else {
                spec_pass1(r.0, b)
            }
        }),
    decreases a.len(),
{
    if a.len() == 0 {
        assert(a + b =~= b);
    } else {
        assert((a + b)[0] == a[0]);
        assert((a + b).drop_first() =~= a.drop_first() + b);
        match spec_line_step(st, a[0]) {
            Err(e) => {},
            Ok(st2) => {
                lemma_pass1_append(st2, a.drop_first(), b);
            },
        }
    }
}

// ---------------------------------------------------------------------------
// Pass two: resolving symbolic targets
// ---------------------------------------------------------------------------

/// The operands before the target, each followed by a comma.
pub open spec fn join_commas(ps: Seq<Seq<u8>>) -> Seq<u8>
    decreases ps.len(),
{
    if ps.len() == 0 {
        Seq::empty()
    } else {
        join_commas(ps.drop_last()) + ps.last() + seq![44u8]
    }
}

/// Does pass two look at this line at all? Only mnemonics that can carry a
/// symbolic target: everything beginning `j` or `b`, plus `call`, `lla`
/// and `la`.
pub open spec fn resolvable(l: Seq<u8>) -> bool {
    ||| spec_has_prefix(l, ascii_bytes("j"@))
    ||| spec_has_prefix(l, ascii_bytes("call"@))
    ||| spec_has_prefix(l, ascii_bytes("b"@))
    ||| spec_has_prefix(l, ascii_bytes("lla"@))
    ||| spec_has_prefix(l, ascii_bytes("la"@))
}

/// The symbolic target of a resolvable line: the last comma-separated
/// operand, trimmed, with an optional `@plt` suffix removed. For `call`
/// the sole operand is the target and the line is rewritten to
/// `jal ra, target`.
pub open spec fn target_label(l: Seq<u8>) -> Seq<u8> {
    let ht = spec_head_tail(l);
    let params = if ht.0 == ascii_bytes("call"@) {
        ascii_bytes("ra, "@) + ht.1
    } else {
        ht.1
    };
    let parts = spec_split(params, 44);
    let lab = spec_trim(parts.last());
    if spec_has_suffix(lab, ascii_bytes("@plt"@)) {
        lab.take(lab.len() - 4)
    } else {
        lab
    }
}

/// One line after pass two: a resolvable line whose target is in the
/// symbol table has the target textually replaced by its decimal address,
/// all preceding operands kept; any other line is untouched.
pub open spec fn spec_resolve_line(l: Seq<u8>, syms: Seq<(Seq<u8>, usize)>) -> Seq<u8> {
    if !resolvable(l) {
        l
    } else {
        let ht = spec_head_tail(l);
        let is_call = ht.0 == ascii_bytes("call"@);
        let mn = if is_call {
            ascii_bytes("jal"@)
        } else {
            ht.0
        };
        let params = if is_call {
            ascii_bytes("ra, "@) + ht.1
        } else {
            ht.1
        };
        let parts = spec_split(params, 44);
        match sym_lookup(syms, target_label(l)) {
            Some(val) => mn + seq![32u8] + join_commas(parts.take(parts.len() - 1)) + dec_digits(
                val as nat,
            ),
            None => l,
        }
    }
}

/// The diagnostic pass two leaves for a resolvable line it could not
/// resolve: the target label, unless the line is an indirect jump (`jr`,
/// or `j` through a register) or the target is already numeric.
pub open spec fn warn_label(l: Seq<u8>, syms: Seq<(Seq<u8>, usize)>) -> Option<Seq<u8>> {
    if !resolvable(l) {
        None
    } else {
        let lab = target_label(l);
        if sym_lookup(syms, lab) is Some {
            None
        } else if spec_head_tail(l).0 == ascii_bytes("jr"@) {
            None
        } else if spec_register_index(lab) is Some {
            None
        } else if spec_parse_int(lab) is Some {
            None
        } else {
            Some(lab)
        }
    }
}

pub open spec fn spec_pass2(prog: Seq<Seq<u8>>, syms: Seq<(Seq<u8>, usize)>) -> Seq<Seq<u8>> {
    prog.map_values(|l: Seq<u8>| spec_resolve_line(l, syms))
}

/// The unresolved-target diagnostics of a whole program, in program order.
pub open spec fn spec_warnings(prog: Seq<Seq<u8>>, syms: Seq<(Seq<u8>, usize)>) -> Seq<Seq<u8>>
    decreases prog.len(),
{
    if prog.len() == 0 {
        Seq::empty()
    } else {
        match warn_label(prog[0], syms) {
            Some(lab) => seq![lab] + spec_warnings(prog.drop_first(), syms),
            None => spec_warnings(prog.drop_first(), syms),
        }
    }
}

// ---------------------------------------------------------------------------
// One whole unit, and several units
// ---------------------------------------------------------------------------

/// One unit compiled against the shared state: pass one over its lines,
/// then pass two over the whole accumulated program. Carries out the new
/// state, the unresolved-target diagnostics, and the first fatal error if
/// there was one.
pub open spec fn spec_compile_unit(st: AsmView, content: Seq<u8>) -> (
    AsmView,
    Seq<Seq<u8>>,
    Option<ErrView>,
) {
    let r = spec_pass1(
        AsmView { last_label: Seq::<u8>::empty(), ..st },
        spec_split(content, 10),
    );
    if r.1 is Some {
        (r.0, Seq::<Seq<u8>>::empty(), r.1)
    } else {
        (
            AsmView { program: spec_pass2(r.0.program, r.0.syms), ..r.0 },
            spec_warnings(r.0.program, r.0.syms),
            None,
        )
    }
}

/// The entry point: the resolved address of the label `main`, or 0 when
/// there is none (an entry of 0 therefore also means "no designated entry
/// point").
pub open spec fn spec_entry(syms: Seq<(Seq<u8>, usize)>) -> i64 {
    match sym_lookup(syms, ascii_bytes("main"@)) {
        Some(v) => if v <= 0x7fff_ffff_ffff_ffff {
            v as i64
        } else {
            0
        },
        None => 0,
    }
}

/// Several units compiled in order against one shared state; the
/// diagnostics reported are those of the last unit's pass two, which sees
/// the full symbol table.
pub open spec fn spec_compile_files(st: AsmView, files: Seq<Seq<u8>>) -> (
    AsmView,
    Seq<Seq<u8>>,
    Option<ErrView>,
)
    decreases files.len(),
{
    if files.len() == 0 {
        (st, Seq::<Seq<u8>>::empty(), None)
    } else {
        let r1 = spec_compile_unit(st, files[0]);
        if r1.2 is Some {
            r1
        } else if files.len() == 1 {
            r1
        } else {
            spec_compile_files(r1.0, files.drop_first())
        }
    }
}

pub proof fn lemma_files_append(st: AsmView, a: Seq<Seq<u8>>, b: Seq<Seq<u8>>)
    ensures
        spec_compile_files(st, a + b) == ({
            let r = spec_compile_files(st, a);
            if r.2 is Some {
                r
            } else if b.len() == 0 {
                r
            } else {
                spec_compile_files(r.0, b)
            }
        }),
    decreases a.len(),
{
    if a.len() == 0 {
        assert(a + b =~= b);
    } else {
        assert((a + b)[0] == a[0]);
        assert((a + b).drop_first() =~= a.drop_first() + b);
        assert((a + b).len() == a.len() + b.len());
        let r1 = spec_compile_unit(st, a[0]);
        if r1.2 is Some {
        } else {
            lemma_files_append(r1.0, a.drop_first(), b);
            if a.len() == 1 {
                assert(a.drop_first() + b =~= b);
            }
        }
    }
}

pub proof fn lemma_warnings_snoc(prog: Seq<Seq<u8>>, syms: Seq<(Seq<u8>, usize)>, l: Seq<u8>)
    ensures
        warn_label(l, syms) matches Some(lab) ==> spec_warnings(prog.push(l), syms)
            == spec_warnings(prog, syms).push(lab),
        warn_label(l, syms) is None ==> spec_warnings(prog.push(l), syms) == spec_warnings(
            prog,
            syms,
        ),
    decreases prog.len(),
{
    if prog.len() == 0 {
        assert(prog.push(l)[0] == l);
        assert(prog.push(l).drop_first() =~= Seq::<Seq<u8>>::empty());
        assert(spec_warnings(Seq::<Seq<u8>>::empty(), syms) =~= Seq::<Seq<u8>>::empty());
        match warn_label(l, syms) {
            Some(lab) => {
                assert(spec_warnings(prog.push(l), syms) == seq![lab] + spec_warnings(
                    prog.push(l).drop_first(),
                    syms,
                ));
                assert(seq![lab] + Seq::<Seq<u8>>::empty() =~= Seq::<Seq<u8>>::empty().push(lab));
            },
            None => {},
        }
    } else {
        assert(prog.push(l)[0] == prog[0]);
        assert(prog.push(l).drop_first() =~= prog.drop_first().push(l));
        lemma_warnings_snoc(prog.drop_first(), syms, l);
        match warn_label(prog[0], syms) {
            Some(lab0) => {
                match warn_label(l, syms) {
                    Some(lab) => {
                        assert(seq![lab0] + spec_warnings(prog.drop_first(), syms).push(lab) =~= (
                        seq![lab0] + spec_warnings(prog.drop_first(), syms)).push(lab));
                    },
                    None => {},
                }
            },
            None => {},
        }
    }
}



/// Appends a byte slice to a vector.
fn append_bytes(dst: &mut Vec<u8>, src: &[u8])
    ensures
        final(dst)@ == old(dst)@ + src@,
{
    let mut i: usize = 0;
    while i < src.len()
        invariant
            i <= src@.len(),
            dst@ == old(dst)@ + src@.take(i as int),
        decreases src@.len() - i,
    {
        dst.push(src[i]);
        proof {
            assert(dst@ =~= old(dst)@ + src@.take(i as int + 1));
        }
        i += 1;
    }
    proof {
        assert(src@.take(src@.len() as int) =~= src@);
        assert(dst@ =~= old(dst)@ + src@);
    }
}

// ---------------------------------------------------------------------------
// Executable pass two
// ---------------------------------------------------------------------------

/// Resolves one line against the symbol table; also returns the
/// unresolved-target diagnostic for it, if any.
fn resolve_line(l: &Vec<u8>, symbols: &Vec<(Vec<u8>, usize)>) -> (r: (Vec<u8>, Option<Vec<u8>>))
    ensures
        r.0@ == spec_resolve_line(l@, sym_views(symbols@)),
        match warn_label(l@, sym_views(symbols@)) {
            Some(w) => r.1 matches Some(v) && v@ == w,
            None => r.1 is None,
        },
{
    proof {
        reveal_strlit("j");
        reveal_strlit("call");
        reveal_strlit("b");
        reveal_strlit("lla");
        reveal_strlit("la");
        reveal_strlit("jal");
        reveal_strlit("ra, ");
        reveal_strlit("@plt");
        reveal_strlit("jr");
    }
    let cond = has_prefix(l.as_slice(), "j") || has_prefix(l.as_slice(), "call") || has_prefix(
        l.as_slice(),
        "b",
    ) || has_prefix(l.as_slice(), "lla") || has_prefix(l.as_slice(), "la");
    if !cond {
        return (vstd::slice::slice_to_vec(l.as_slice()), None);
    }
    let mn0: Vec<u8>;
    let rest: Vec<u8>;
    match find_byte(l.as_slice(), 32) {
        Some(i) => {
            proof {
                lemma_first_pos(l@, 32);
                assert(i < l@.len());
            }
            let n = l.len();
            mn0 = vstd::slice::slice_to_vec(vstd::slice::slice_subrange(l.as_slice(), 0, i));
            rest = vstd::slice::slice_to_vec(
                vstd::slice::slice_subrange(l.as_slice(), i + 1, n),
            );
            proof {
                assert(mn0@ =~= spec_head_tail(l@).0);
                assert(rest@ =~= spec_head_tail(l@).1);
            }
        },
        None => {
            mn0 = vstd::slice::slice_to_vec(l.as_slice());
            rest = Vec::new();
            proof {
                assert(rest@ =~= spec_head_tail(l@).1);
            }
        },
    }
    let is_call = is_tok(mn0.as_slice(), "call");
    let mn: Vec<u8> = if is_call {
        str_to_bytes("jal")
    } else {
        vstd::slice::slice_to_vec(mn0.as_slice())
    };
    let params: Vec<u8> = if is_call {
        let mut p = str_to_bytes("ra, ");
        append_bytes(&mut p, rest.as_slice());
        p
    } else {
        vstd::slice::slice_to_vec(rest.as_slice())
    };
    let parts = split_bytes(params.as_slice(), 44);
    let ghost pviews = views_of(parts@);
    proof {
        assert(pviews.last() == parts@[parts@.len() - 1]@);
    }
    let label0 = trim(parts[parts.len() - 1].as_slice());
    let label: Vec<u8>;
    if has_suffix(label0.as_slice(), "@plt") {
        let n2 = label0.len();
        label = vstd::slice::slice_to_vec(
            vstd::slice::slice_subrange(label0.as_slice(), 0, n2 - 4),
        );
        proof {
            assert(label@ =~= label0@.take(label0@.len() - 4));
        }
    } else {
        label = label0;
    }
    proof {
        assert(label@ == target_label(l@));
    }
    match sym_lookup_exec(symbols, label.as_slice()) {
        Some(val) => {
            let ghost mnv = mn@;
            let mut ins = mn;
            ins.push(32);
            let nparts = parts.len();
            let mut k: usize = 0;
            proof {
                assert(join_commas(pviews.take(0)) =~= Seq::<u8>::empty());
                assert(ins@ =~= mnv + seq![32u8] + join_commas(pviews.take(0)));
            }
            while k < nparts - 1
                invariant
                    nparts == parts@.len(),
                    nparts >= 1,
                    k <= nparts - 1,
                    pviews == views_of(parts@),
                    ins@ == mnv + seq![32u8] + join_commas(pviews.take(k as int)),
                decreases nparts - k,
            {
                append_bytes(&mut ins, parts[k].as_slice());
                ins.push(44);
                proof {
                    assert(pviews.take(k as int + 1).drop_last() =~= pviews.take(k as int));
                    assert(pviews.take(k as int + 1).last() == pviews[k as int]);
                    assert(ins@ =~= mnv + seq![32u8] + join_commas(pviews.take(k as int + 1)));
                }
                k += 1;
            }
            let dd = render_dec(val);
            append_bytes(&mut ins, dd.as_slice());
            proof {
                assert(pviews.take(pviews.len() - 1) =~= pviews.take(nparts as int - 1));
                assert(ins@ =~= spec_resolve_line(l@, sym_views(symbols@)));
            }
            (ins, None)
        },
        None => {
            let is_jr = is_tok(mn0.as_slice(), "jr");
            let warn: Option<Vec<u8>> = if !is_jr && register_index(label.as_slice()).is_none()
                && parse_int(label.as_slice()).is_none() {
                Some(label)
            } else {
                None
            };
            (vstd::slice::slice_to_vec(l.as_slice()), warn)
        },
    }
}


// ---------------------------------------------------------------------------
// Compiling one unit
// ---------------------------------------------------------------------------

/// Compiles one source unit against the shared assembler state. Returns
/// the resolved address of the label `main` if the symbol table now holds
/// one (else 0), and the unresolved-target diagnostics of pass two. On a
/// fatal line the work of every earlier line is kept and the error says
/// what was wrong with the offending one.
#[verifier::rlimit(100)]
pub fn compile(
    content: &[u8],
    memory: &mut Memory,
    program: &mut Vec<Vec<u8>>,
    data_segment_size: &mut usize,
    symbols: &mut Vec<(Vec<u8>, usize)>,
) -> (r: Result<(i64, Vec<Vec<u8>>), VmError>)
    requires
        old(memory).wf(),
        *old(data_segment_size) <= old(memory)@.total,
    ensures
        final(memory).wf(),
        *final(data_segment_size) <= final(memory)@.total,
        ({
            let st0 = AsmView {
                mem: old(memory)@,
                program: views_of(old(program)@),
                dss: *old(data_segment_size) as int,
                syms: sym_views(old(symbols)@),
                last_label: Seq::<u8>::empty(),
            };
            let u = spec_compile_unit(st0, content@);
            &&& final(memory)@ == u.0.mem
            &&& views_of(final(program)@) == u.0.program
            &&& *final(data_segment_size) as int == u.0.dss
            &&& sym_views(final(symbols)@) == u.0.syms
            &&& match u.2 {
                Some(ev) => r matches Err(e) && e@ == ev,
                None => r matches Ok(t) && t.0 == spec_entry(u.0.syms) && views_of(t.1@) == u.1,
            }
        }),
{
    let lines = split_bytes(content, 10);
    let ghost lviews = views_of(lines@);
    let ghost st0 = AsmView {
        mem: old(memory)@,
        program: views_of(old(program)@),
        dss: *old(data_segment_size) as int,
        syms: sym_views(old(symbols)@),
        last_label: Seq::<u8>::empty(),
    };
    let mut last_label: Vec<u8> = Vec::new();
    let nlines = lines.len();
    let mut i: usize = 0;
    proof {
        assert(lviews.take(0) =~= Seq::<Seq<u8>>::empty());
    }
    while i < nlines
        invariant
            nlines == lines@.len(),
            i <= nlines,
            lviews == views_of(lines@),
            lviews == spec_split(content@, 10),
            st0 == (AsmView {
                mem: old(memory)@,
                program: views_of(old(program)@),
                dss: *old(data_segment_size) as int,
                syms: sym_views(old(symbols)@),
                last_label: Seq::<u8>::empty(),
            }),
            memory.wf(),
            *data_segment_size as int <= memory@.total,
            spec_pass1(st0, lviews.take(i as int)).1 is None,
            memory@ == spec_pass1(st0, lviews.take(i as int)).0.mem,
            views_of(program@) == spec_pass1(st0, lviews.take(i as int)).0.program,
            *data_segment_size as int == spec_pass1(st0, lviews.take(i as int)).0.dss,
            sym_views(symbols@) == spec_pass1(st0, lviews.take(i as int)).0.syms,
            last_label@ == spec_pass1(st0, lviews.take(i as int)).0.last_label,
        decreases nlines - i,
    {
        let ghost stc = spec_pass1(st0, lviews.take(i as int)).0;
        let ghost rawline = lviews[i as int];
        proof {
            reveal_strlit(".string");
            reveal_strlit(".zero");
            assert(lviews.take(i as int + 1) =~= lviews.take(i as int) + seq![rawline]);
            lemma_pass1_append(st0, lviews.take(i as int), seq![rawline]);
            assert(seq![rawline][0] == rawline);
            assert(seq![rawline].drop_first() =~= Seq::<Seq<u8>>::empty());
        }
        let lc = clean_line(lines[i].as_slice());
        proof {
            assert(lines@[i as int]@ == rawline);
            assert(lc@ == spec_clean_line(rawline));
        }
        if lc.len() > 0 && lc[lc.len() - 1] == 58 {
            let n2 = lc.len();
            let name = vstd::slice::slice_to_vec(
                vstd::slice::slice_subrange(lc.as_slice(), 0, n2 - 1),
            );
            proof {
                assert(name@ =~= lc@.drop_last());
            }
            let name2 = vstd::slice::slice_to_vec(name.as_slice());
            let pos = program.len();
            symbols.push((name2, pos));
            last_label = name;
            proof {
                let st2 = spec_line_step(stc, rawline)->Ok_0;
                assert(sym_views(symbols@) =~= st2.syms);
                assert(last_label@ == st2.last_label);
            }
        } else if lc.len() > 0 && lc[0] == 46 {
            if has_prefix(lc.as_slice(), ".string") {
                match find_byte(lc.as_slice(), 32) {
                    None => {
                        proof {
                            assert(lviews =~= lviews.take(i as int) + lviews.skip(i as int));
                            lemma_pass1_append(
                                st0,
                                lviews.take(i as int),
                                lviews.skip(i as int),
                            );
                            assert(lviews.skip(i as int)[0] == rawline);
                        }
                        return Err(VmError::MalformedOperand(lc));
                    },
                    Some(sp) => {
                        proof {
                            lemma_first_pos(lc@, 32);
                            assert(sp < lc@.len());
                        }
                        let n3 = lc.len();
                        let after = vstd::slice::slice_subrange(lc.as_slice(), sp + 1, n3);
                        proof {
                            assert(after@ =~= lc@.skip(sp as int + 1));
                        }
                        let tok = trim(after);
                        if tok.len() < 2 {
                            proof {
                                assert(lviews =~= lviews.take(i as int) + lviews.skip(i as int));
                                lemma_pass1_append(
                                    st0,
                                    lviews.take(i as int),
                                    lviews.skip(i as int),
                                );
                                assert(lviews.skip(i as int)[0] == rawline);
                            }
                            return Err(VmError::MalformedOperand(lc));
                        }
                        let tn = tok.len();
                        let inner = vstd::slice::slice_subrange(tok.as_slice(), 1, tn - 1);
                        proof {
                            assert(inner@ =~= tok@.subrange(1, tok@.len() - 1));
                        }
                        match unescape_text(inner) {
                            None => {
                                proof {
                                    assert(lviews =~= lviews.take(i as int) + lviews.skip(
                                        i as int,
                                    ));
                                    lemma_pass1_append(
                                        st0,
                                        lviews.take(i as int),
                                        lviews.skip(i as int),
                                    );
                                    assert(lviews.skip(i as int)[0] == rawline);
                                }
                                return Err(VmError::MalformedOperand(lc));
                            },
                            Some(data) => {
                                let sl = memory.stack_memory.len();
                                if data.len() >= sl || *data_segment_size > sl - data.len()
                                    - 1 {
                                    proof {
                                        assert(stc.dss + data@.len() + 1
                                            > stc.mem.stack.len());
                                        assert(lviews =~= lviews.take(i as int) + lviews.skip(
                                            i as int,
                                        ));
                                        lemma_pass1_append(
                                            st0,
                                            lviews.take(i as int),
                                            lviews.skip(i as int),
                                        );
                                        assert(lviews.skip(i as int)[0] == rawline);
                                    }
                                    return Err(
                                        VmError::OutOfBounds(
                                            memory.virtual_memory_size as i64,
                                        ),
                                    );
                                }
                                let dss2 = *data_segment_size + data.len() + 1;
                                *data_segment_size = dss2;
                                let total = memory.virtual_memory_size;
                                let start_addr = total - dss2;
                                let ghost m_before = memory@;
                                let ghost all = data@.push(0u8);
                                let dlen = data.len();
                                let mut kk: usize = 0;
                                proof {
                                    assert(memory@ =~= m_before.write_bytes(
                                        start_addr as int,
                                        all.take(0),
                                    ));
                                }
                                while kk < dlen
                                    invariant
                                        kk <= dlen,
                                        dlen == data@.len(),
                                        all == data@.push(0u8),
                                        m_before.wf(),
                                        memory.wf(),
                                        start_addr as int + dlen + 1 <= m_before.total,
                                        m_before.total - m_before.stack.len()
                                            <= start_addr as int,
                                        start_addr + dlen + 1 <= usize::MAX,
                                        memory@ == m_before.write_bytes(
                                            start_addr as int,
                                            all.take(kk as int),
                                        ),
                                    decreases dlen - kk,
                                {
                                    proof {
                                        crate::memory::lemma_write_bytes_byte_at(
                                            m_before,
                                            start_addr as int,
                                            all.take(kk as int),
                                        );
                                        assert(m_before.is_stack(start_addr as int + kk));
                                        assert(m_before.valid(start_addr as int + kk));
                                        assert(memory@.valid(start_addr as int + kk));
                                    }
                                    let b = data[kk];
                                    memory.put_byte((start_addr + kk) as i64, b);
                                    proof {
                                        let tgt = m_before.write_bytes(
                                            start_addr as int,
                                            all.take(kk as int + 1),
                                        );
                                        assert(all.take(kk as int + 1) =~= all.take(
                                            kk as int,
                                        ).push(data@[kk as int]));
                                        assert(memory@.heap =~= tgt.heap);
                                        assert(memory@.stack =~= tgt.stack);
                                        assert(memory@ =~= tgt);
                                    }
                                    kk += 1;
                                }
                                proof {
                                    crate::memory::lemma_write_bytes_byte_at(
                                        m_before,
                                        start_addr as int,
                                        all.take(dlen as int),
                                    );
                                    assert(m_before.is_stack(start_addr as int + dlen));
                                    assert(m_before.valid(start_addr as int + dlen));
                                    assert(memory@.valid(start_addr as int + dlen));
                                }
                                memory.put_byte((start_addr + dlen) as i64, 0);
                                proof {
                                    let tgt = m_before.write_bytes(start_addr as int, all);
                                    assert(all.take(dlen as int).push(0u8) =~= all);
                                    assert(memory@.heap =~= tgt.heap);
                                    assert(memory@.stack =~= tgt.stack);
                                    assert(memory@ =~= tgt);
                                }
                                let lab = vstd::slice::slice_to_vec(last_label.as_slice());
                                symbols.push((lab, start_addr));
                                proof {
                                    let st2 = spec_line_step(stc, rawline)->Ok_0;
                                    assert(sym_views(symbols@) =~= st2.syms);
                                    assert(memory@ == st2.mem);
                                }
                            },
                        }
                    },
                }
            } else if has_prefix(lc.as_slice(), ".zero") {
                match find_byte(lc.as_slice(), 32) {
                    None => {
                        proof {
                            assert(lviews =~= lviews.take(i as int) + lviews.skip(i as int));
                            lemma_pass1_append(
                                st0,
                                lviews.take(i as int),
                                lviews.skip(i as int),
                            );
                            assert(lviews.skip(i as int)[0] == rawline);
                        }
                        return Err(VmError::MalformedOperand(lc));
                    },
                    Some(sp) => {
                        proof {
                            lemma_first_pos(lc@, 32);
                            assert(sp < lc@.len());
                        }
                        let n3 = lc.len();
                        let after = vstd::slice::slice_subrange(lc.as_slice(), sp + 1, n3);
                        proof {
                            assert(after@ =~= lc@.skip(sp as int + 1));
                        }
                        let tok = trim(after);
                        let parsed = parse_int(tok.as_slice());
                        let bad = match parsed {
                            None => true,
                            Some(n) => n < 0,
                        };
                        if bad {
                            proof {
                                assert(lviews =~= lviews.take(i as int) + lviews.skip(i as int));
                                lemma_pass1_append(
                                    st0,
                                    lviews.take(i as int),
                                    lviews.skip(i as int),
                                );
                                assert(lviews.skip(i as int)[0] == rawline);
                            }
                            return Err(VmError::MalformedOperand(lc));
                        }
                        let n = match parsed {
                            Some(n) => n,
                            None => 0,
                        };
                        let avail = memory.virtual_memory_size - *data_segment_size;
                        if n > avail as i64 {
                            proof {
                                assert(stc.dss + n > stc.mem.total);
                                assert(lviews =~= lviews.take(i as int) + lviews.skip(i as int));
                                lemma_pass1_append(
                                    st0,
                                    lviews.take(i as int),
                                    lviews.skip(i as int),
                                );
                                assert(lviews.skip(i as int)[0] == rawline);
                            }
                            return Err(
                                VmError::OutOfBounds(memory.virtual_memory_size as i64),
                            );
                        }
                        let dss2 = *data_segment_size + (n as usize);
                        let lab = vstd::slice::slice_to_vec(last_label.as_slice());
                        symbols.push((lab, memory.virtual_memory_size - dss2));
                        *data_segment_size = dss2;
                        proof {
                            let st2 = spec_line_step(stc, rawline)->Ok_0;
                            assert(sym_views(symbols@) =~= st2.syms);
                        }
                    },
                }
            } else {
            }
        } else if lc.len() == 0 {
        } else {
            program.push(lc);
            proof {
                let st2 = spec_line_step(stc, rawline)->Ok_0;
                assert(views_of(program@) =~= st2.program);
            }
        }
        proof {
            reveal_with_fuel(spec_pass1, 3);
            assert(spec_line_step(stc, rawline) is Ok);
            let st2 = spec_line_step(stc, rawline)->Ok_0;
            assert(spec_pass1(stc, seq![rawline]) == spec_pass1(st2, seq![rawline].drop_first()));
            assert(spec_pass1(st2, seq![rawline].drop_first()) == (st2, None::<ErrView>));
            assert(spec_pass1(st0, lviews.take(i as int + 1)).1 is None);
            assert(spec_pass1(st0, lviews.take(i as int + 1)).0 == st2);
            assert(views_of(program@) =~= st2.program);
            assert(sym_views(symbols@) =~= st2.syms);
        }
        i += 1;
    }
    proof {
        assert(lviews.take(nlines as int) =~= lviews);
    }
    let ghost st1 = spec_pass1(st0, lviews).0;
    let ghost orig = views_of(program@);
    let ghost symsv = sym_views(symbols@);
    let mut warns: Vec<Vec<u8>> = Vec::new();
    let nprog = program.len();
    let mut k: usize = 0;
    proof {
        assert(orig.take(0) =~= Seq::<Seq<u8>>::empty());
    }
    while k < nprog
        invariant
            nprog == program@.len(),
            k <= nprog,
            orig.len() == nprog,
            symsv == sym_views(symbols@),
            memory.wf(),
            *data_segment_size as int <= memory@.total,
            memory@ == st1.mem,
            *data_segment_size as int == st1.dss,
            symsv == st1.syms,
            orig == st1.program,
            st0 == (AsmView {
                mem: old(memory)@,
                program: views_of(old(program)@),
                dss: *old(data_segment_size) as int,
                syms: sym_views(old(symbols)@),
                last_label: Seq::<u8>::empty(),
            }),
            st1 == spec_pass1(st0, spec_split(content@, 10)).0,
            spec_pass1(st0, spec_split(content@, 10)).1 is None,
            forall|j: int|
                0 <= j < k ==> #[trigger] views_of(program@)[j] == spec_resolve_line(
                    orig[j],
                    symsv,
                ),
            forall|j: int| k <= j < nprog ==> #[trigger] views_of(program@)[j] == orig[j],
            views_of(warns@) == spec_warnings(orig.take(k as int), symsv),
        decreases nprog - k,
    {
        proof {
            assert(views_of(program@)[k as int] == orig[k as int]);
            assert(program@[k as int]@ == orig[k as int]);
        }
        let ghost pre = program@;
        let pair = resolve_line(&program[k], symbols);
        let ghost newview = pair.0@;
        let newline = pair.0;
        let w = pair.1;
        program[k] = newline;
        proof {
            assert(program@ =~= pre.update(k as int, program@[k as int]));
            assert(program@[k as int]@ == newview);
            assert(newview == spec_resolve_line(orig[k as int], symsv));
        }
        match w {
            Some(wv) => {
                warns.push(wv);
            },
            None => {},
        }
        proof {
            lemma_warnings_snoc(orig.take(k as int), symsv, orig[k as int]);
            assert(orig.take(k as int + 1) =~= orig.take(k as int).push(orig[k as int]));
            assert(views_of(warns@) =~= spec_warnings(orig.take(k as int + 1), symsv));
            assert forall|j: int| 0 <= j < k + 1 implies #[trigger] views_of(program@)[j]
                == spec_resolve_line(orig[j], symsv) by {
                assert(views_of(program@)[j] == program@[j]@);
                if j < k {
                    assert(views_of(pre)[j] == pre[j]@);
                    assert(program@[j] == pre[j]);
                } else {
                    assert(program@[j]@ == newview);
                }
            }
            assert forall|j: int| k + 1 <= j < nprog implies #[trigger] views_of(program@)[j]
                == orig[j] by {
                assert(views_of(program@)[j] == program@[j]@);
                assert(views_of(pre)[j] == pre[j]@);
                assert(program@[j] == pre[j]);
            }
        }
        k += 1;
    }
    proof {
        assert(orig.take(nprog as int) =~= orig);
        assert(views_of(program@) =~= spec_pass2(orig, symsv));
        reveal_strlit("main");
    }
    let mname = str_to_bytes("main");
    let entry: i64 = match sym_lookup_exec(symbols, mname.as_slice()) {
        Some(v) => {
            if (v as u64) <= 0x7fff_ffff_ffff_ffff {
                v as i64
            } else {
                0
            }
        },
        None => 0,
    };
    proof {
        assert(entry == spec_entry(sym_views(symbols@)));
    }
    Ok((entry, warns))
}


// ---------------------------------------------------------------------------
// Compiling several units
// ---------------------------------------------------------------------------

/// Compiles every unit in order against one shared state: a fresh memory's
/// data segment is populated, the symbol table accumulates across units,
/// and pass two of each unit reruns over the whole program so far, so a
/// later unit resolves references an earlier one left open. Returns the
/// resolved program text, the entry point (`main`, or 0), the data segment
/// size, and the unresolved-target diagnostics of the last unit.
pub fn compile_files(files: &Vec<Vec<u8>>, memory: &mut Memory) -> (r: Result<
    (Vec<Vec<u8>>, i64, usize, Vec<Vec<u8>>),
    VmError,
>)
    requires
        old(memory).wf(),
    ensures
        final(memory).wf(),
        ({
            let st0 = AsmView {
                mem: old(memory)@,
                program: Seq::<Seq<u8>>::empty(),
                dss: 0,
                syms: Seq::<(Seq<u8>, usize)>::empty(),
                last_label: Seq::<u8>::empty(),
            };
            let u = spec_compile_files(st0, views_of(files@));
            &&& final(memory)@ == u.0.mem
            &&& match u.2 {
                Some(ev) => r matches Err(e) && e@ == ev,
                None => r matches Ok(t) && views_of(t.0@) == u.0.program && t.1 == spec_entry(
                    u.0.syms,
                ) && t.2 as int == u.0.dss && views_of(t.3@) == u.1,
            }
        }),
{
    let ghost fviews = views_of(files@);
    let ghost st0 = AsmView {
        mem: old(memory)@,
        program: Seq::<Seq<u8>>::empty(),
        dss: 0,
        syms: Seq::<(Seq<u8>, usize)>::empty(),
        last_label: Seq::<u8>::empty(),
    };
    let mut program: Vec<Vec<u8>> = Vec::new();
    let mut dss: usize = 0;
    let mut symbols: Vec<(Vec<u8>, usize)> = Vec::new();
    let mut warns: Vec<Vec<u8>> = Vec::new();
    let nfiles = files.len();
    let mut fi: usize = 0;
    proof {
        assert(fviews.take(0) =~= Seq::<Seq<u8>>::empty());
        assert(views_of(program@) =~= Seq::<Seq<u8>>::empty());
        assert(sym_views(symbols@) =~= Seq::<(Seq<u8>, usize)>::empty());
        assert(views_of(warns@) =~= Seq::<Seq<u8>>::empty());
    }
    while fi < nfiles
        invariant
            nfiles == files@.len(),
            fi <= nfiles,
            fviews == views_of(files@),
            st0 == (AsmView {
                mem: old(memory)@,
                program: Seq::<Seq<u8>>::empty(),
                dss: 0,
                syms: Seq::<(Seq<u8>, usize)>::empty(),
                last_label: Seq::<u8>::empty(),
            }),
            memory.wf(),
            dss as int <= memory@.total,
            spec_compile_files(st0, fviews.take(fi as int)).2 is None,
            memory@ == spec_compile_files(st0, fviews.take(fi as int)).0.mem,
            views_of(program@) == spec_compile_files(st0, fviews.take(fi as int)).0.program,
            dss as int == spec_compile_files(st0, fviews.take(fi as int)).0.dss,
            sym_views(symbols@) == spec_compile_files(st0, fviews.take(fi as int)).0.syms,
            fi > 0 ==> views_of(warns@) == spec_compile_files(st0, fviews.take(fi as int)).1,
            fi == 0 ==> views_of(warns@) == Seq::<Seq<u8>>::empty(),
        decreases nfiles - fi,
    {
        let ghost stc = spec_compile_files(st0, fviews.take(fi as int)).0;
        let ghost fcontent = fviews[fi as int];
        proof {
            assert(files@[fi as int]@ == fcontent);
            assert(fviews.take(fi as int + 1) =~= fviews.take(fi as int) + seq![fcontent]);
            lemma_files_append(st0, fviews.take(fi as int), seq![fcontent]);
            assert(seq![fcontent][0] == fcontent);
            assert(seq![fcontent].len() == 1);
        }
        let ghost ppre = views_of(program@);
        let ghost spre = sym_views(symbols@);
        let ghost mpre = memory@;
        let ghost dpre = dss as int;
        match compile(files[fi].as_slice(), memory, &mut program, &mut dss, &mut symbols) {
            Ok(pair) => {
                warns = pair.1;
                proof {
                    let st0c = AsmView {
                        mem: mpre,
                        program: ppre,
                        dss: dpre,
                        syms: spre,
                        last_label: Seq::<u8>::empty(),
                    };
                    assert((AsmView { last_label: Seq::<u8>::empty(), ..stc }) =~= st0c);
                    let u = spec_compile_unit(stc, fcontent);
                    assert(u == spec_compile_unit(st0c, fcontent));
                    assert(u.2 is None);
                    assert(spec_compile_files(st0, fviews.take(fi as int + 1)) == u);
                    assert(views_of(warns@) == u.1);
                }
            },
            Err(e) => {
                proof {
                    assert(fviews =~= fviews.take(fi as int) + fviews.skip(fi as int));
                    lemma_files_append(st0, fviews.take(fi as int), fviews.skip(fi as int));
                    assert(fviews.skip(fi as int)[0] == fcontent);
                    assert(fviews.skip(fi as int).len() > 0);
                    let st0c = AsmView {
                        mem: mpre,
                        program: ppre,
                        dss: dpre,
                        syms: spre,
                        last_label: Seq::<u8>::empty(),
                    };
                    assert((AsmView { last_label: Seq::<u8>::empty(), ..stc }) =~= st0c);
                    let u = spec_compile_unit(stc, fcontent);
                    assert(u == spec_compile_unit(st0c, fcontent));
                    assert(u.2 is Some);
                    assert(spec_compile_files(stc, fviews.skip(fi as int)) == u);
                }
                return Err(e);
            },
        }
        fi += 1;
    }
    proof {
        assert(fviews.take(nfiles as int) =~= fviews);
        reveal_strlit("main");
    }
    let mname = str_to_bytes("main");
    let entry: i64 = match sym_lookup_exec(&symbols, mname.as_slice()) {
        Some(v) => {
            if (v as u64) <= 0x7fff_ffff_ffff_ffff {
                v as i64
            } else {
                0
            }
        },
        None => 0,
    };
    proof {
        assert(entry == spec_entry(sym_views(symbols@)));
    }
    Ok((program, entry, dss, warns))
}

/// Decodes every resolved line of the program into its instruction, ready
/// for the evaluator's fetch-execute loop.
pub fn decode_program(program: &Vec<Vec<u8>>) -> (r: Vec<Instruction>)
    ensures
        r@.len() == program@.len(),
        forall|j: int|
            #![trigger r@[j]]
            0 <= j < r@.len() ==> r@[j]@ == spec_decode(program@[j]@) && r@[j]@.wf(),
{
    let mut r: Vec<Instruction> = Vec::new();
    let mut i: usize = 0;
    while i < program.len()
        invariant
            i <= program@.len(),
            r@.len() == i,
            forall|j: int|
                #![trigger r@[j]]
                0 <= j < i ==> r@[j]@ == spec_decode(program@[j]@) && r@[j]@.wf(),
        decreases program@.len() - i,
    {
        r.push(decode(program[i].as_slice()));
        i += 1;
    }
    r
}


// ---------------------------------------------------------------------------
// Laws: the symbol table accumulates across units
// ---------------------------------------------------------------------------

/// Pass one never removes a symbol: whatever the unit's lines, the symbol
/// table it produces begins with the table it was given.
pub proof fn lemma_pass1_extends_syms(st: AsmView, lines: Seq<Seq<u8>>)
    ensures
        spec_pass1(st, lines).0.syms.len() >= st.syms.len(),
        forall|j: int|
            0 <= j < st.syms.len() ==> #[trigger] spec_pass1(st, lines).0.syms[j] == st.syms[j],
    decreases lines.len(),
{
    if lines.len() > 0 {
        match spec_line_step(st, lines[0]) {
            Err(_) => {},
            Ok(st2) => {
                assert(st2.syms.len() >= st.syms.len() && forall|j: int|
                    0 <= j < st.syms.len() ==> #[trigger] st2.syms[j] == st.syms[j]);
                lemma_pass1_extends_syms(st2, lines.drop_first());
            },
        }
    }
}

/// Labels are global and cumulative across units: a successful compilation
/// of several units only ever appends to the symbol table, so every label a
/// unit defines is still bound when the last unit's pass two resolves the
/// whole program. With `spec_resolve_line`, this is why two units that
/// define and reference each other's labels link in either compilation
/// order.
pub proof fn lemma_files_extend_syms(st: AsmView, files: Seq<Seq<u8>>)
    requires
        spec_compile_files(st, files).2 is None,
    ensures
        spec_compile_files(st, files).0.syms.len() >= st.syms.len(),
        forall|j: int|
            0 <= j < st.syms.len() ==> #[trigger] spec_compile_files(st, files).0.syms[j]
                == st.syms[j],
    decreases files.len(),
{
    if files.len() > 0 {
        let st1 = AsmView { last_label: Seq::<u8>::empty(), ..st };
        lemma_pass1_extends_syms(st1, spec_split(files[0], 10));
        let r1 = spec_compile_unit(st, files[0]);
        if r1.2 is None && files.len() > 1 {
            lemma_files_extend_syms(r1.0, files.drop_first());
        }
    }
}

} // verus!
