use vstd::prelude::*;
use vstd::utf8::encode_utf8;
use crate::ast::{
    idents_view, lemma_stmts_view_index, stmt_view, stmts_view, ExprView, Expression, Ident,
    Infix, Literal, Program, Statement, StmtView,
};
use crate::error::CompileError;
use crate::laws::lemma_signature_dedup;

verus! {

/// Section ids of the module encoding.
pub const SECTION_TYPE: u8 = 0x01;
pub const SECTION_FUNCTION: u8 = 0x03;
pub const SECTION_EXPORT: u8 = 0x07;
pub const SECTION_CODE: u8 = 0x0a;

/// The 32-bit integer value type, used for every parameter and result.
pub const TYPE_I32: u8 = 0x7f;
/// Introduces a function type in the type section.
pub const FUNCTION_TYPE: u8 = 0x60;
/// Export kind of a function.
pub const EXPORT_FUNCTION: u8 = 0x00;

pub const OP_LOCAL_GET: u8 = 0x20;
pub const OP_I32_CONST: u8 = 0x41;
pub const OP_I32_ADD: u8 = 0x6a;
pub const OP_I32_SUB: u8 = 0x6b;
pub const OP_I32_MUL: u8 = 0x6c;
pub const OP_I32_DIV: u8 = 0x6d;
pub const OP_END: u8 = 0x0b;

/// The low byte of `n`: counts, lengths and indices are written as one byte each.
pub open spec fn byte(n: int) -> u8 {
    (n % 256) as u8
}

/// The function declarations of a program, in source order.
pub open spec fn functions(p: Seq<StmtView>) -> Seq<StmtView>
    decreases p.len(),
{
    if p.len() == 0 {
        Seq::empty()
    } else if p.last() is Function {
        functions(p.drop_last()).push(p.last())
    } else {
        functions(p.drop_last())
    }
}

pub open spec fn arity(f: StmtView) -> nat {
    match f {
        StmtView::Function { params, .. } => params.len(),
        _ => 0,
    }
}

/// The signature map: the distinct arities in order of first appearance.
/// The arity at position `k` has type index `k`.
pub open spec fn signature_arities(fs: Seq<StmtView>) -> Seq<nat>
    decreases fs.len(),
{
    if fs.len() == 0 {
        Seq::empty()
    } else {
        let prev = signature_arities(fs.drop_last());
        let a = arity(fs.last());
        if prev.contains(a) {
            prev
        } else {
            prev.push(a)
        }
    }
}

/// The position of `a` in `s` (its last one), or 0 when absent.
pub open spec fn index_in(s: Seq<nat>, a: nat) -> int
    decreases s.len(),
{
    if s.len() == 0 {
        0
    } else if s.last() == a {
        s.len() - 1
    } else {
        index_in(s.drop_last(), a)
    }
}

/// The type index of a function.
pub open spec fn type_index(fs: Seq<StmtView>, f: StmtView) -> int {
    index_in(signature_arities(fs), arity(f))
}

pub open spec fn type_entry(a: nat) -> Seq<u8> {
    seq![FUNCTION_TYPE, byte(a as int)] + Seq::new(a, |k: int| TYPE_I32) + seq![1u8, TYPE_I32]
}

pub open spec fn type_entries(s: Seq<nat>) -> Seq<u8>
    decreases s.len(),
{
    if s.len() == 0 {
        Seq::empty()
    } else {
        type_entries(s.drop_last()) + type_entry(s.last())
    }
}

pub open spec fn type_section_body(fs: Seq<StmtView>) -> Seq<u8> {
    let s = signature_arities(fs);
    seq![byte(s.len() as int)] + type_entries(s)
}

pub open spec fn function_entries(fs: Seq<StmtView>, sig: Seq<nat>) -> Seq<u8>
    decreases fs.len(),
{
    if fs.len() == 0 {
        Seq::empty()
    } else {
        function_entries(fs.drop_last(), sig).push(byte(index_in(sig, arity(fs.last()))))
    }
}

pub open spec fn function_section_body(fs: Seq<StmtView>) -> Seq<u8> {
    seq![byte(fs.len() as int)] + function_entries(fs, signature_arities(fs))
}

pub open spec fn fn_name(f: StmtView) -> Seq<char> {
    match f {
        StmtView::Function { name, .. } => name,
        _ => Seq::empty(),
    }
}

/// A function exported under its name (UTF-8, length first), with its
/// position among the function declarations as its index.
pub open spec fn export_entry(name: Seq<char>, k: int) -> Seq<u8> {
    let b = encode_utf8(name);
    seq![byte(b.len() as int)] + b + seq![EXPORT_FUNCTION, byte(k)]
}

pub open spec fn export_entries(fs: Seq<StmtView>) -> Seq<u8>
    decreases fs.len(),
{
    if fs.len() == 0 {
        Seq::empty()
    } else {
        export_entries(fs.drop_last()) + export_entry(fn_name(fs.last()), fs.len() - 1)
    }
}

pub open spec fn export_section_body(fs: Seq<StmtView>) -> Seq<u8> {
    seq![byte(fs.len() as int)] + export_entries(fs)
}

/// The position of the last parameter called `name`.
pub open spec fn param_index(params: Seq<Seq<char>>, name: Seq<char>) -> Option<nat>
    decreases params.len(),
{
    if params.len() == 0 {
        None
    } else if params.last() == name {
        Some((params.len() - 1) as nat)
    } else {
        param_index(params.drop_last(), name)
    }
}

/// Big-endian bytes of `v` without leading zero bytes; zero is one zero byte.
pub open spec fn min_be(v: nat) -> Seq<u8>
    decreases v,
{
    if v < 256 {
        seq![v as u8]
    } else {
        min_be(v / 256).push((v % 256) as u8)
    }
}

/// The 64-bit two's complement pattern of a literal.
pub open spec fn literal_bits(v: i64) -> nat {
    if v >= 0 {
        v as nat
    } else {
        (v + 0x1_0000_0000_0000_0000) as nat
    }
}

pub open spec fn opcode(op: Infix) -> u8 {
    match op {
        Infix::Plus => OP_I32_ADD,
        Infix::Minus => OP_I32_SUB,
        Infix::Asterisk => OP_I32_MUL,
        Infix::Slash => OP_I32_DIV,
    }
}

/// Stack-machine code of an expression, operands before their operator. An
/// identifier that names no parameter yields no code.
pub open spec fn expr_code(e: ExprView, params: Seq<Seq<char>>) -> Seq<u8>
    decreases e,
{
    match e {
        ExprView::Ident(n) => match param_index(params, n) {
            Some(k) => seq![OP_LOCAL_GET, byte(k as int)],
            None => Seq::empty(),
        },
        ExprView::Literal(v) => seq![OP_I32_CONST] + min_be(literal_bits(v)),
        ExprView::Infix(op, l, r) => expr_code(*l, params) + expr_code(*r, params) + seq![opcode(op)],
    }
}

/// The code of a function body; a nested declaration yields no code.
pub open spec fn body_code(stmts: Seq<StmtView>, params: Seq<Seq<char>>) -> Seq<u8>
    decreases stmts.len(),
{
    if stmts.len() == 0 {
        Seq::empty()
    } else {
        body_code(stmts.drop_last(), params) + match stmts.last() {
            StmtView::Expression(e) => expr_code(e, params),
            _ => Seq::empty(),
        }
    }
}

/// A function body: its size, no locals, its code, and the end marker.
pub open spec fn function_body(params: Seq<Seq<char>>, body: Seq<StmtView>) -> Seq<u8> {
    let inner = seq![0u8] + body_code(body, params) + seq![OP_END];
    seq![byte(inner.len() as int)] + inner
}

pub open spec fn code_entries(fs: Seq<StmtView>) -> Seq<u8>
    decreases fs.len(),
{
    if fs.len() == 0 {
        Seq::empty()
    } else {
        let f = fs.last();
        code_entries(fs.drop_last()) + match f {
            StmtView::Function { params, body, .. } => function_body(params, body),
            _ => Seq::empty(),
        }
    }
}

pub open spec fn code_section_body(fs: Seq<StmtView>) -> Seq<u8> {
    seq![byte(fs.len() as int)] + code_entries(fs)
}

/// `[id][length][content]`.
pub open spec fn section(id: u8, body: Seq<u8>) -> Seq<u8> {
    seq![id, byte(body.len() as int)] + body
}

/// Magic number and version.
pub open spec fn module_header() -> Seq<u8> {
    seq![0x00u8, 0x61u8, 0x73u8, 0x6du8, 0x01u8, 0x00u8, 0x00u8, 0x00u8]
}

pub open spec fn module_bytes(p: Seq<StmtView>) -> Seq<u8> {
    let fs = functions(p);
    module_header() + section(SECTION_TYPE, type_section_body(fs)) + section(
        SECTION_FUNCTION,
        function_section_body(fs),
    ) + section(SECTION_EXPORT, export_section_body(fs)) + section(
        SECTION_CODE,
        code_section_body(fs),
    )
}

/// Every section's content fits the one-byte length of its frame. Each
/// function body lies inside the code section, so it fits too.
pub open spec fn sections_fit(p: Seq<StmtView>) -> bool {
    let fs = functions(p);
    &&& type_section_body(fs).len() < 256
    &&& function_section_body(fs).len() < 256
    &&& export_section_body(fs).len() < 256
    &&& code_section_body(fs).len() < 256
}

/// The module of a program. It fails when the program declares no function,
/// and when a section would hold more than 255 bytes, the most that a
/// one-byte length can frame.
pub open spec fn emit_program(p: Seq<StmtView>) -> Result<Seq<u8>, CompileError> {
    if functions(p).len() == 0 || !sections_fit(p) {
        Err(CompileError::EmitFailure)
    } else {
        Ok(module_bytes(p))
    }
}

pub open spec fn bytes_result(r: Result<Vec<u8>, CompileError>) -> Result<Seq<u8>, CompileError> {
    match r {
        Ok(b) => Ok(b@),
        Err(e) => Err(e),
    }
}

pub proof fn lemma_functions_step(p: Seq<StmtView>, i: int)
    requires
        0 <= i < p.len(),
    ensures
        functions(p.subrange(0, i + 1)) == if p[i] is Function {
            functions(p.subrange(0, i)).push(p[i])
        } else {
            functions(p.subrange(0, i))
        },
{
    assert(p.subrange(0, i + 1).drop_last() =~= p.subrange(0, i));
}

fn low_byte(n: usize) -> (r: u8)
    ensures
        r == byte(n as int),
{
    (n % 256) as u8
}

fn push_all(out: &mut Vec<u8>, bytes: &[u8])
    ensures
        final(out)@ == old(out)@ + bytes@,
{
    let mut i: usize = 0;
    while i < bytes.len()
        invariant
            i <= bytes@.len(),
            out@ == old(out)@ + bytes@.subrange(0, i as int),
        decreases bytes@.len() - i,
    {
        assert(bytes@.subrange(0, i + 1) =~= bytes@.subrange(0, i as int).push(bytes@[i as int]));
        out.push(bytes[i]);
        i = i + 1;
    }
    assert(bytes@.subrange(0, i as int) =~= bytes@);
}

fn push_min_be(out: &mut Vec<u8>, v: u64)
    ensures
        final(out)@ == old(out)@ + min_be(v as nat),
    decreases v,
{
    if v >= 256 {
        push_min_be(out, v / 256);
        assert(old(out)@ + min_be((v / 256) as nat) + seq![(v % 256) as u8] =~= old(out)@ + min_be(
            v as nat,
        ));
    } else {
        assert(old(out)@ + seq![v as u8] =~= old(out)@ + min_be(v as nat));
    }
    out.push((v % 256) as u8);
}

fn param_position(args: &[Ident], name: &String) -> (r: Option<usize>)
    ensures
        match r {
            Some(j) => param_index(idents_view(args@), name@) == Some(j as nat),
            None => param_index(idents_view(args@), name@) is None,
        },
{
    let ghost ps = idents_view(args@);
    let mut j = args.len();
    assert(ps.subrange(0, j as int) =~= ps);
    while j > 0
        invariant
            j <= args@.len(),
            ps == idents_view(args@),
            param_index(ps, name@) == param_index(ps.subrange(0, j as int), name@),
        decreases j,
    {
        assert(ps.subrange(0, j as int).drop_last() =~= ps.subrange(0, j - 1));
        if args[j - 1].0 == *name {
            return Some(j - 1);
        }
        j = j - 1;
    }
    None
}

fn emit_expression(body: &mut Vec<u8>, args: &[Ident], expr: &Expression)
    ensures
        final(body)@ == old(body)@ + expr_code(expr@, idents_view(args@)),
    decreases expr,
{
    let ghost ps = idents_view(args@);
    match expr {
        Expression::Ident(ident) => {
            match param_position(args, &ident.0) {
                Some(k) => {
                    body.push(OP_LOCAL_GET);
                    body.push(low_byte(k));
                    assert(old(body)@.push(OP_LOCAL_GET).push(byte(k as int)) =~= old(body)@ + seq![OP_LOCAL_GET, byte(k as int)]);
                },
                None => {
                    assert(old(body)@ + Seq::<u8>::empty() =~= old(body)@);
                },
            }
        },
        Expression::Literal(Literal::Int(v)) => {
            body.push(OP_I32_CONST);
            let bits: u64 = if *v >= 0 {
                *v as u64
            } else {
                (*v + i64::MAX + 1) as u64 + 0x8000_0000_0000_0000u64
            };
            assert(bits as nat == literal_bits(*v));
            push_min_be(body, bits);
            assert(old(body)@.push(OP_I32_CONST) + min_be(bits as nat) =~= old(body)@ + (seq![OP_I32_CONST] + min_be(bits as nat)));
        },
        Expression::Infix(op, left, right) => {
            emit_expression(body, args, left);
            emit_expression(body, args, right);
            let code = match op {
                Infix::Plus => OP_I32_ADD,
                Infix::Minus => OP_I32_SUB,
                Infix::Asterisk => OP_I32_MUL,
                Infix::Slash => OP_I32_DIV,
            };
            body.push(code);
            assert(old(body)@ + expr_code((**left)@, ps) + expr_code((**right)@, ps) + seq![code] =~= old(body)@ + expr_code(expr@, ps));
        },
    }
}

fn build_code_function_section(args: &[Ident], blocks: &[Statement]) -> (r: Vec<u8>)
    ensures
        r@ == function_body(idents_view(args@), stmts_view(blocks@)),
{
    let ghost ps = idents_view(args@);
    let ghost ss = stmts_view(blocks@);
    proof {
        lemma_stmts_view_index(blocks@);
    }
    let mut body: Vec<u8> = vec![0u8];
    let mut i: usize = 0;
    assert(body@ =~= seq![0u8] + body_code(ss.subrange(0, 0), ps));
    while i < blocks.len()
        invariant
            i <= blocks@.len(),
            ps == idents_view(args@),
            ss == stmts_view(blocks@),
            ss.len() == blocks@.len(),
            forall|k: int| 0 <= k < blocks@.len() ==> #[trigger] ss[k] == stmt_view(blocks@[k]),
            body@ == seq![0u8] + body_code(ss.subrange(0, i as int), ps),
        decreases blocks@.len() - i,
    {
        let ghost before = body@;
        assert(ss.subrange(0, i + 1).drop_last() =~= ss.subrange(0, i as int));
        assert(ss[i as int] == stmt_view(blocks@[i as int]));
        match &blocks[i] {
            Statement::Expression(e) => {
                emit_expression(&mut body, args, e);
                assert(before + expr_code(e@, ps) =~= seq![0u8] + body_code(ss.subrange(0, i + 1), ps));
            },
            Statement::Fn { .. } => {
                assert(before =~= seq![0u8] + body_code(ss.subrange(0, i + 1), ps));
            },
        }
        i = i + 1;
    }
    assert(ss.subrange(0, i as int) =~= ss);
    body.push(OP_END);
    let size = low_byte(body.len());
    body.insert(0, size);
    assert(body@ =~= function_body(ps, ss));
    body
}

fn build_section(id: u8, body: Vec<u8>) -> (r: Vec<u8>)
    ensures
        r@ == section(id, body@),
{
    let mut body = body;
    let mut out: Vec<u8> = vec![id, low_byte(body.len())];
    out.append(&mut body);
    out
}

pub open spec fn nat_view(s: Seq<usize>) -> Seq<nat> {
    s.map_values(|a: usize| a as nat)
}

fn contains_arity(sigs: &Vec<usize>, a: usize) -> (r: bool)
    ensures
        r == nat_view(sigs@).contains(a as nat),
{
    let mut j: usize = 0;
    while j < sigs.len()
        invariant
            j <= sigs@.len(),
            forall|k: int| 0 <= k < j ==> sigs@[k] != a,
        decreases sigs@.len() - j,
    {
        if sigs[j] == a {
            assert(nat_view(sigs@)[j as int] == a as nat);
            return true;
        }
        j = j + 1;
    }
    assert(!nat_view(sigs@).contains(a as nat)) by {
        if nat_view(sigs@).contains(a as nat) {
            let k = choose|k: int| 0 <= k < sigs@.len() && nat_view(sigs@)[k] == a as nat;
            assert(sigs@[k] == a);
        }
    }
    false
}

fn push_type_entry(out: &mut Vec<u8>, a: usize)
    ensures
        final(out)@ == old(out)@ + type_entry(a as nat),
{
    out.push(FUNCTION_TYPE);
    out.push(low_byte(a));
    let mut k: usize = 0;
    while k < a
        invariant
            k <= a,
            out@ == old(out)@ + seq![FUNCTION_TYPE, byte(a as int)] + Seq::new(k as nat, |j: int| TYPE_I32),
        decreases a - k,
    {
        out.push(TYPE_I32);
        assert(Seq::new(k as nat, |j: int| TYPE_I32).push(TYPE_I32) =~= Seq::new((k + 1) as nat, |j: int| TYPE_I32));
        k = k + 1;
    }
    out.push(1u8);
    out.push(TYPE_I32);
    assert(out@ =~= old(out)@ + type_entry(a as nat));
}

/// Encodes a program as a module with a type, a function, an export and a
/// code section.
pub struct Emitter {
    program: Program,
    /// The arity of each function type, by type index.
    signature_map: Vec<usize>,
}

impl Emitter {
    /// The program being encoded.
    pub closed spec fn program(&self) -> Seq<StmtView> {
        self.program@
    }

    /// The signature map: the arity of each function type, by type index.
    pub closed spec fn signatures(&self) -> Seq<nat> {
        nat_view(self.signature_map@)
    }

    pub fn new(program: Program) -> (r: Emitter)
        ensures
            r.program() == program@,
    {
        Emitter { program, signature_map: Vec::new() }
    }

    /// Encodes the program, or fails with `EmitFailure` when it declares no
    /// function or when a section would exceed 255 bytes; no bytes are
    /// produced then.
    pub fn emit(&mut self) -> (r: Result<Vec<u8>, CompileError>)
        ensures
            bytes_result(r) == emit_program(old(self).program()),
            final(self).program() == old(self).program(),
    {
        if self.function_count() == 0 {
            return Err(CompileError::EmitFailure);
        }
        let mut out: Vec<u8> = vec![0x00u8, 0x61u8, 0x73u8, 0x6du8, 0x01u8, 0x00u8, 0x00u8, 0x00u8];
        let mut type_section = self.build_type_section();
        let mut function_section = self.build_function_section();
        let mut export_section = self.build_export_section();
        let mut code_section = self.build_code_section();
        if type_section.len() > 257 || function_section.len() > 257 || export_section.len() > 257
            || code_section.len() > 257 {
            return Err(CompileError::EmitFailure);
        }
        assert(out@ =~= module_header());
        out.append(&mut type_section);
        out.append(&mut function_section);
        out.append(&mut export_section);
        out.append(&mut code_section);
        Ok(out)
    }

    fn function_count(&self) -> (r: usize)
        ensures
            r == functions(self.program()).len(),
    {
        let ghost p = self.program();
        let v = &self.program.statements;
        proof {
            lemma_stmts_view_index(v@);
        }
        let mut count: usize = 0;
        let mut i: usize = 0;
        while i < v.len()
            invariant
                i <= v@.len(),
                p == stmts_view(v@),
                p.len() == v@.len(),
                forall|k: int| 0 <= k < v@.len() ==> #[trigger] p[k] == stmt_view(v@[k]),
                count <= i,
                count == functions(p.subrange(0, i as int)).len(),
            decreases v@.len() - i,
        {
            proof {
                lemma_functions_step(p, i as int);
            }
            assert(p[i as int] == stmt_view(v@[i as int]));
            if matches!(v[i], Statement::Fn { .. }) {
                count = count + 1;
            }
            i = i + 1;
        }
        assert(p.subrange(0, i as int) =~= p);
        count
    }

    /// Builds the type section: one function type per distinct arity, in order
    /// of first appearance, whatever the number of functions that share it.
    pub fn build_type_section(&mut self) -> (r: Vec<u8>)
        ensures
            r@ == section(SECTION_TYPE, type_section_body(functions(old(self).program()))),
            final(self).program() == old(self).program(),
            final(self).signatures() == signature_arities(functions(old(self).program())),
            signature_arities(functions(old(self).program())).no_duplicates(),
            forall|a: nat|
                signature_arities(functions(old(self).program())).contains(a) <==> exists|k: int|
                    0 <= k < functions(old(self).program()).len() && #[trigger] arity(
                        functions(old(self).program())[k],
                    ) == a,
    {
        proof {
            lemma_signature_dedup(self.program());
        }
        let ghost p = self.program();
        let mut sigs: Vec<usize> = Vec::new();
        let mut entries: Vec<u8> = Vec::new();
        let v = &self.program.statements;
        proof {
            lemma_stmts_view_index(v@);
        }
        assert(nat_view(sigs@) =~= Seq::<nat>::empty());
        let mut i: usize = 0;
        while i < v.len()
            invariant
                i <= v@.len(),
                p == stmts_view(v@),
                p.len() == v@.len(),
                forall|k: int| 0 <= k < v@.len() ==> #[trigger] p[k] == stmt_view(v@[k]),
                nat_view(sigs@) == signature_arities(functions(p.subrange(0, i as int))),
                entries@ == type_entries(signature_arities(functions(p.subrange(0, i as int)))),
            decreases v@.len() - i,
        {
            let ghost fs = functions(p.subrange(0, i as int));
            proof {
                lemma_functions_step(p, i as int);
            }
            assert(p[i as int] == stmt_view(v@[i as int]));
            if let Statement::Fn { args, .. } = &v[i] {
                let a = args.len();
                let ghost f = p[i as int];
                assert(fs.push(f).drop_last() =~= fs);
                assert(arity(f) == a as nat);
                if !contains_arity(&sigs, a) {
                    let ghost prev = nat_view(sigs@);
                    sigs.push(a);
                    assert(nat_view(sigs@) =~= prev.push(a as nat));
                    push_type_entry(&mut entries, a);
                    assert(prev.push(a as nat).drop_last() =~= prev);
                }
            }
            i = i + 1;
        }
        assert(p.subrange(0, i as int) =~= p);
        let mut body: Vec<u8> = vec![low_byte(sigs.len())];
        body.append(&mut entries);
        self.signature_map = sigs;
        build_section(SECTION_TYPE, body)
    }

    fn type_index_of(&self, a: usize) -> (r: usize)
        ensures
            r == index_in(nat_view(self.signature_map@), a as nat),
    {
        let ghost s = nat_view(self.signature_map@);
        let mut j = self.signature_map.len();
        assert(s.subrange(0, j as int) =~= s);
        while j > 0
            invariant
                j <= self.signature_map@.len(),
                s == nat_view(self.signature_map@),
                index_in(s, a as nat) == index_in(s.subrange(0, j as int), a as nat),
            decreases j,
        {
            assert(s.subrange(0, j as int).drop_last() =~= s.subrange(0, j - 1));
            if self.signature_map[j - 1] == a {
                return j - 1;
            }
            j = j - 1;
        }
        0
    }

    fn build_function_section(&self) -> (r: Vec<u8>)
        requires
            nat_view(self.signature_map@) == signature_arities(functions(self.program())),
        ensures
            r@ == section(SECTION_FUNCTION, function_section_body(functions(self.program()))),
    {
        let ghost p = self.program();
        let ghost sig = nat_view(self.signature_map@);
        let mut entries: Vec<u8> = Vec::new();
        let mut count: usize = 0;
        let v = &self.program.statements;
        proof {
            lemma_stmts_view_index(v@);
        }
        let mut i: usize = 0;
        while i < v.len()
            invariant
                i <= v@.len(),
                p == stmts_view(v@),
                p.len() == v@.len(),
                forall|k: int| 0 <= k < v@.len() ==> #[trigger] p[k] == stmt_view(v@[k]),
                sig == nat_view(self.signature_map@),
                count <= i,
                count == functions(p.subrange(0, i as int)).len(),
                entries@ == function_entries(functions(p.subrange(0, i as int)), sig),
            decreases v@.len() - i,
        {
            let ghost fs = functions(p.subrange(0, i as int));
            proof {
                lemma_functions_step(p, i as int);
            }
            assert(p[i as int] == stmt_view(v@[i as int]));
            if let Statement::Fn { args, .. } = &v[i] {
                let ghost f = p[i as int];
                assert(fs.push(f).drop_last() =~= fs);
                let index = self.type_index_of(args.len());
                entries.push(low_byte(index));
                count = count + 1;
            }
            i = i + 1;
        }
        assert(p.subrange(0, i as int) =~= p);
        let mut body: Vec<u8> = vec![low_byte(count)];
        body.append(&mut entries);
        build_section(SECTION_FUNCTION, body)
    }

    fn build_export_section(&self) -> (r: Vec<u8>)
        ensures
            r@ == section(SECTION_EXPORT, export_section_body(functions(self.program()))),
    {
        let ghost p = self.program();
        let mut entries: Vec<u8> = Vec::new();
        let mut count: usize = 0;
        let v = &self.program.statements;
        proof {
            lemma_stmts_view_index(v@);
        }
        let mut i: usize = 0;
        while i < v.len()
            invariant
                i <= v@.len(),
                p == stmts_view(v@),
                p.len() == v@.len(),
                forall|k: int| 0 <= k < v@.len() ==> #[trigger] p[k] == stmt_view(v@[k]),
                count <= i,
                count == functions(p.subrange(0, i as int)).len(),
                entries@ == export_entries(functions(p.subrange(0, i as int))),
            decreases v@.len() - i,
        {
            let ghost fs = functions(p.subrange(0, i as int));
            proof {
                lemma_functions_step(p, i as int);
            }
            assert(p[i as int] == stmt_view(v@[i as int]));
            if let Statement::Fn { ident, .. } = &v[i] {
                let ghost f = p[i as int];
                let ghost before = entries@;
                assert(fs.push(f).drop_last() =~= fs);
                let name = ident.0.as_str().as_bytes();
                entries.push(low_byte(name.len()));
                push_all(&mut entries, name);
                entries.push(EXPORT_FUNCTION);
                entries.push(low_byte(count));
                assert(entries@ =~= before + export_entry(fn_name(f), fs.len() as int));
                count = count + 1;
            }
            i = i + 1;
        }
        assert(p.subrange(0, i as int) =~= p);
        let mut body: Vec<u8> = vec![low_byte(count)];
        body.append(&mut entries);
        build_section(SECTION_EXPORT, body)
    }

    fn build_code_section(&self) -> (r: Vec<u8>)
        ensures
            r@ == section(SECTION_CODE, code_section_body(functions(self.program()))),
    {
        let ghost p = self.program();
        let mut entries: Vec<u8> = Vec::new();
        let mut count: usize = 0;
        let v = &self.program.statements;
        proof {
            lemma_stmts_view_index(v@);
        }
        let mut i: usize = 0;
        while i < v.len()
            invariant
                i <= v@.len(),
                p == stmts_view(v@),
                p.len() == v@.len(),
                forall|k: int| 0 <= k < v@.len() ==> #[trigger] p[k] == stmt_view(v@[k]),
                count <= i,
                count == functions(p.subrange(0, i as int)).len(),
                entries@ == code_entries(functions(p.subrange(0, i as int))),
            decreases v@.len() - i,
        {
            let ghost fs = functions(p.subrange(0, i as int));
            proof {
                lemma_functions_step(p, i as int);
            }
            assert(p[i as int] == stmt_view(v@[i as int]));
            if let Statement::Fn { args, blocks, .. } = &v[i] {
                let ghost f = p[i as int];
                assert(fs.push(f).drop_last() =~= fs);
                let body = build_code_function_section(args.as_slice(), blocks.as_slice());
                push_all(&mut entries, body.as_slice());
                count = count + 1;
            }
            i = i + 1;
        }
        assert(p.subrange(0, i as int) =~= p);
        let mut body: Vec<u8> = vec![low_byte(count)];
        body.append(&mut entries);
        build_section(SECTION_CODE, body)
    }
}

} // verus!
