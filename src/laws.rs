use vstd::prelude::*;
use crate::ast::StmtView;
use crate::emitter::{
    arity, byte, code_section_body, emit_program, export_section_body, function_entries,
    function_section_body, functions, index_in, module_bytes, module_header, section, sections_fit,
    signature_arities, type_entries, type_entry, type_index, type_section_body, SECTION_CODE, SECTION_EXPORT,
    SECTION_FUNCTION, SECTION_TYPE,
};

verus! {

/// The ids of the `[id][length][content]` frames that make up `b`, or `None`
/// when a frame runs past the end.
pub open spec fn frame_ids(b: Seq<u8>) -> Option<Seq<u8>>
    decreases b.len(),
{
    if b.len() == 0 {
        Some(Seq::empty())
    } else if b.len() < 2 {
        None
    } else {
        let end = 2 + b[1] as int;
        if end > b.len() {
            None
        } else {
            match frame_ids(b.subrange(end, b.len() as int)) {
                Some(rest) => Some(seq![b[0]] + rest),
                None => None,
            }
        }
    }
}

proof fn lemma_frame_ids_section(id: u8, content: Seq<u8>, rest: Seq<u8>)
    requires
        content.len() < 256,
    ensures
        frame_ids(section(id, content) + rest) == match frame_ids(rest) {
            Some(r) => Some(seq![id] + r),
            None => None::<Seq<u8>>,
        },
{
    let b = section(id, content) + rest;
    assert(b[1] as int == content.len());
    assert(b.subrange(2 + content.len() as int, b.len() as int) =~= rest);
}

/// A program that declares a function, and whose sections each fit their
/// one-byte length, compiles; its module is the magic number and version
/// followed by the type, function, export and code sections, in that order,
/// and nothing else.
pub proof fn lemma_module_layout(p: Seq<StmtView>)
    requires
        functions(p).len() > 0,
        sections_fit(p),
    ensures
        emit_program(p) is Ok,
        emit_program(p)->Ok_0.subrange(0, 8) == module_header(),
        frame_ids(emit_program(p)->Ok_0.subrange(8, emit_program(p)->Ok_0.len() as int))
            == Some(seq![SECTION_TYPE, SECTION_FUNCTION, SECTION_EXPORT, SECTION_CODE]),
{
    let fs = functions(p);
    let s1 = section(SECTION_TYPE, type_section_body(fs));
    let s2 = section(SECTION_FUNCTION, function_section_body(fs));
    let s3 = section(SECTION_EXPORT, export_section_body(fs));
    let s4 = section(SECTION_CODE, code_section_body(fs));
    let b = module_bytes(p);
    assert(b =~= module_header() + (s1 + (s2 + (s3 + s4))));
    assert(b.subrange(0, 8) =~= module_header());
    assert(b.subrange(8, b.len() as int) =~= s1 + (s2 + (s3 + s4)));
    assert(frame_ids(Seq::<u8>::empty()) == Some(Seq::<u8>::empty()));
    assert(s4 =~= s4 + Seq::<u8>::empty());
    lemma_frame_ids_section(SECTION_CODE, code_section_body(fs), Seq::empty());
    lemma_frame_ids_section(SECTION_EXPORT, export_section_body(fs), s4);
    lemma_frame_ids_section(SECTION_FUNCTION, function_section_body(fs), s3 + s4);
    lemma_frame_ids_section(SECTION_TYPE, type_section_body(fs), s2 + (s3 + s4));
    assert(seq![SECTION_TYPE] + (seq![SECTION_FUNCTION] + (seq![SECTION_EXPORT] + (seq![SECTION_CODE] + Seq::<u8>::empty())))
        =~= seq![SECTION_TYPE, SECTION_FUNCTION, SECTION_EXPORT, SECTION_CODE]);
}

proof fn lemma_index_in(s: Seq<nat>, a: nat)
    requires
        s.contains(a),
    ensures
        0 <= index_in(s, a) < s.len(),
        s[index_in(s, a)] == a,
    decreases s.len(),
{
    if s.last() != a {
        let k = choose|k: int| 0 <= k < s.len() && s[k] == a;
        assert(s.drop_last()[k] == a);
        lemma_index_in(s.drop_last(), a);
    }
}

proof fn lemma_signatures(fs: Seq<StmtView>)
    ensures
        signature_arities(fs).no_duplicates(),
        forall|a: nat|
            signature_arities(fs).contains(a) <==> exists|k: int|
                0 <= k < fs.len() && #[trigger] arity(fs[k]) == a,
        function_entries(fs, signature_arities(fs)).len() == fs.len(),
    decreases fs.len(),
{
    if fs.len() > 0 {
        let prev = fs.drop_last();
        lemma_signatures(prev);
        let s = signature_arities(prev);
        let a = arity(fs.last());
        assert forall|b: nat|
            signature_arities(fs).contains(b) <==> exists|k: int|
                0 <= k < fs.len() && #[trigger] arity(fs[k]) == b by {
            if signature_arities(fs).contains(b) {
                if s.contains(b) {
                    let k = choose|k: int| 0 <= k < prev.len() && #[trigger] arity(prev[k]) == b;
                    assert(arity(fs[k]) == b);
                } else {
                    assert(arity(fs[fs.len() - 1]) == b);
                }
            }
            if exists|k: int| 0 <= k < fs.len() && #[trigger] arity(fs[k]) == b {
                let k = choose|k: int| 0 <= k < fs.len() && #[trigger] arity(fs[k]) == b;
                if k < fs.len() - 1 {
                    assert(arity(prev[k]) == b);
                    assert(s.contains(b));
                    if !s.contains(a) {
                        assert(s.push(a)[s.index_of(b)] == b);
                    }
                } else if !s.contains(a) {
                    assert(s.push(a)[s.len() as int] == b);
                }
            }
        }
        lemma_function_entries_len(fs, signature_arities(fs));
    }
}

proof fn lemma_function_entries_len(fs: Seq<StmtView>, sig: Seq<nat>)
    ensures
        function_entries(fs, sig).len() == fs.len(),
        forall|k: int| 0 <= k < fs.len() ==> #[trigger] function_entries(fs, sig)[k] == byte(index_in(sig, arity(fs[k]))),
    decreases fs.len(),
{
    if fs.len() > 0 {
        lemma_function_entries_len(fs.drop_last(), sig);
    }
}

/// Functions of equal arity share one function type: the type section lists
/// each arity that occurs exactly once, each function's type index points at
/// its own arity, and the function section gives functions of equal arity the
/// same type index.
pub proof fn lemma_signature_dedup(p: Seq<StmtView>)
    ensures
        signature_arities(functions(p)).no_duplicates(),
        forall|a: nat|
            signature_arities(functions(p)).contains(a) <==> exists|k: int|
                0 <= k < functions(p).len() && #[trigger] arity(functions(p)[k]) == a,
        forall|k: int|
            0 <= k < functions(p).len() ==> signature_arities(functions(p))[#[trigger] type_index(
                functions(p),
                functions(p)[k],
            )] == arity(functions(p)[k]),
        forall|j: int, k: int|
            0 <= j < functions(p).len() && 0 <= k < functions(p).len() && arity(functions(p)[j])
                == arity(functions(p)[k]) ==> #[trigger] function_entries(
                functions(p),
                signature_arities(functions(p)),
            )[j] == #[trigger] function_entries(functions(p), signature_arities(functions(p)))[k],
{
    let fs = functions(p);
    let sig = signature_arities(fs);
    lemma_signatures(fs);
    lemma_function_entries_len(fs, sig);
    assert forall|k: int| 0 <= k < fs.len() implies sig[#[trigger] type_index(fs, fs[k])] == arity(fs[k]) by {
        assert(sig.contains(arity(fs[k])));
        lemma_index_in(sig, arity(fs[k]));
    }
}

proof fn lemma_uniform_signatures(fs: Seq<StmtView>, k: nat)
    requires
        fs.len() >= 1,
        forall|i: int| 0 <= i < fs.len() ==> #[trigger] arity(fs[i]) == k,
    ensures
        signature_arities(fs) == seq![k],
    decreases fs.len(),
{
    if fs.len() > 1 {
        let prev = fs.drop_last();
        assert forall|i: int| 0 <= i < prev.len() implies #[trigger] arity(prev[i]) == k by {
            assert(arity(fs[i]) == k);
        }
        lemma_uniform_signatures(prev, k);
        assert(arity(fs[fs.len() - 1]) == k);
        assert(seq![k].contains(k)) by {
            assert(seq![k][0] == k);
        }
    } else {
        assert(fs.drop_last().len() == 0);
        assert(signature_arities(fs.drop_last()) == Seq::<nat>::empty());
        assert(arity(fs[0]) == k);
        assert(Seq::<nat>::empty().push(k) =~= seq![k]);
    }
}

/// However many functions a program declares, if they all have arity `k` the
/// type section holds exactly one function type: `k` parameters and one result.
pub proof fn lemma_uniform_arity(p: Seq<StmtView>, k: nat)
    requires
        functions(p).len() >= 1,
        forall|i: int| 0 <= i < functions(p).len() ==> #[trigger] arity(functions(p)[i]) == k,
    ensures
        signature_arities(functions(p)) == seq![k],
        type_section_body(functions(p)) == seq![1u8] + type_entry(k),
{
    lemma_uniform_signatures(functions(p), k);
    let s = seq![k];
    assert(s.drop_last() =~= Seq::<nat>::empty());
    assert(s.last() == k);
    assert(type_entries(Seq::<nat>::empty()) == Seq::<u8>::empty());
    assert(type_entries(s) =~= type_entry(k));
}

} // verus!
