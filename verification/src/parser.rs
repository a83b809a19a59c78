//! The parser: turns raw source bytes into a `Flow` of named steps, each a
//! positioned instruction list, and rejects duplicate step declarations.
//!
//! The grammar is a recursive descent over bytes with line/column tracking:
//!
//! ```text
//! source   := { "flow" block | ident ':' block } eof
//! block    := '{' { instr } '}'
//! instr    := "say" ( string | ident )
//!           | "do" ident '=' string
//!           | "hold" | "stop"
//!           | "foreach" '(' ident [ ',' ident ] ')' "in"
//!                 '[' [ string { ',' string } ] ']' '{' { simple } '}'
//! ```
//!
//! The whole parse is specified by a functional model over the source bytes
//! (`sp_parse_flow` and its helpers, producing the ghost tree `GInstruction`);
//! every executable parser function is proved to return exactly what its
//! model says, so `Parser::parse_flow` is a fixed function of the source.

use vstd::prelude::*;
use crate::ast::{ErrorInfo, Flow, ForeachInstr, Instr, Instruction, InstructionType, Interval,
    ParseErrorKind, RangeInterval, SayArg, SimpleInstr, unique_types, it_eq};

verus! {

/// A cursor into the source: byte offset plus the 1-based line and column of
/// that offset.
#[derive(Clone, Copy, PartialEq, Eq, Debug)]
pub struct Cursor {
    pub i: usize,
    pub line: u32,
    pub col: u32,
}

/// The cursor invariant: in bounds, with line and column growing no faster
/// than the offset.
pub open spec fn cur_wf(s: Seq<u8>, c: Cursor) -> bool {
    &&& c.i <= s.len()
    &&& 1 <= c.line
    &&& c.line as int <= c.i + 1
    &&& 1 <= c.col
    &&& c.col as int <= c.i + 1
}

/// Sources must leave line and column representable.
pub open spec fn src_ok(s: Seq<u8>) -> bool {
    s.len() < 0xffff_fffe
}

// ---------------------------------------------------------------------------
// The ghost parse tree: the model's image of the instruction tree.
// ---------------------------------------------------------------------------

#[verifier::ext_equal]
pub ghost enum GSay {
    Lit(Seq<u8>),
    Var(Seq<u8>),
}

#[verifier::ext_equal]
pub ghost enum GSimple {
    Say(GSay, Interval),
    DoSet(Seq<u8>, Seq<u8>, Interval),
    HoldDir(Interval),
    Stop(Interval),
}

#[verifier::ext_equal]
pub ghost struct GForeach {
    pub var: Seq<u8>,
    pub index_var: Option<Seq<u8>>,
    pub items: Seq<Seq<u8>>,
    pub body: Seq<GSimple>,
    pub range: RangeInterval,
}

#[verifier::ext_equal]
pub ghost enum GInstr {
    Simple(GSimple),
    Foreach(GForeach),
}

#[verifier::ext_equal]
pub ghost enum GTag {
    StartFlow,
    NormalStep(Seq<u8>),
}

#[verifier::ext_equal]
pub ghost struct GInstruction {
    pub tag: GTag,
    pub actions: Seq<GInstr>,
    pub range: RangeInterval,
}

pub open spec fn say_view(a: SayArg) -> GSay {
    match a {
        SayArg::Lit(v) => GSay::Lit(v@),
        SayArg::Var(v) => GSay::Var(v@),
    }
}

pub open spec fn simple_view(si: SimpleInstr) -> GSimple {
    match si {
        SimpleInstr::Say(a, itv) => GSimple::Say(say_view(a), itv),
        SimpleInstr::DoSet(n, v, itv) => GSimple::DoSet(n@, v@, itv),
        SimpleInstr::HoldDir(itv) => GSimple::HoldDir(itv),
        SimpleInstr::Stop(itv) => GSimple::Stop(itv),
    }
}

pub open spec fn simples_view(v: Seq<SimpleInstr>) -> Seq<GSimple> {
    v.map_values(|x: SimpleInstr| simple_view(x))
}

pub open spec fn opt_name_view(o: Option<Vec<u8>>) -> Option<Seq<u8>> {
    match o {
        Option::Some(v) => Option::Some(v@),
        Option::None => Option::None,
    }
}

pub open spec fn items_view(v: Seq<Vec<u8>>) -> Seq<Seq<u8>> {
    v.map_values(|x: Vec<u8>| x@)
}

pub open spec fn instr_view(it: Instr) -> GInstr {
    match it {
        Instr::Simple(si) => GInstr::Simple(simple_view(si)),
        Instr::Foreach(fe) => GInstr::Foreach(
            GForeach {
                var: fe.var@,
                index_var: opt_name_view(fe.index_var),
                items: items_view(fe.items@),
                body: simples_view(fe.body@),
                range: fe.range,
            },
        ),
    }
}

pub open spec fn instrs_view(v: Seq<Instr>) -> Seq<GInstr> {
    v.map_values(|x: Instr| instr_view(x))
}

pub open spec fn tag_view(t: InstructionType) -> GTag {
    match t {
        InstructionType::StartFlow => GTag::StartFlow,
        InstructionType::NormalStep(n) => GTag::NormalStep(n@),
    }
}

pub open spec fn instruction_view(x: Instruction) -> GInstruction {
    GInstruction {
        tag: tag_view(x.instruction_type),
        actions: instrs_view(x.actions@),
        range: x.range,
    }
}

pub open spec fn instructions_view(v: Seq<Instruction>) -> Seq<GInstruction> {
    v.map_values(|x: Instruction| instruction_view(x))
}

// ---------------------------------------------------------------------------
// Error values and character classes.
// ---------------------------------------------------------------------------

/// The incompleteness error value: the input ended before a construct
/// closed; it carries no position.
pub open spec fn incomplete_err() -> ErrorInfo {
    ErrorInfo { interval: Interval { line: 0, column: 0 }, kind: ParseErrorKind::Incomplete }
}

/// A mismatched token, at the position where it was found.
pub open spec fn unexpected_err(line: u32, col: u32) -> ErrorInfo {
    ErrorInfo { interval: Interval { line: line, column: col }, kind: ParseErrorKind::Unexpected }
}

/// The duplicate-step error value, at the sentinel position.
pub open spec fn dup_err() -> ErrorInfo {
    ErrorInfo { interval: Interval { line: 0, column: 0 }, kind: ParseErrorKind::StepDuplicate }
}

/// A grammar-level failure: never the duplicate-step error, and the
/// positionless incompleteness error always carries the sentinel position.
pub open spec fn grammar_err(e: ErrorInfo) -> bool {
    &&& e.kind != ParseErrorKind::StepDuplicate
    &&& (e.kind == ParseErrorKind::Incomplete ==> e.interval == (Interval { line: 0, column: 0 }))
}

fn incomplete() -> (r: ErrorInfo)
    ensures
        r == incomplete_err(),
        grammar_err(r),
{
    ErrorInfo { interval: Interval { line: 0, column: 0 }, kind: ParseErrorKind::Incomplete }
}

fn unexpected(c: Cursor) -> (r: ErrorInfo)
    ensures
        r == unexpected_err(c.line, c.col),
        grammar_err(r),
{
    ErrorInfo { interval: Interval { line: c.line, column: c.col }, kind: ParseErrorKind::Unexpected }
}

pub open spec fn sp_is_ws(b: u8) -> bool {
    b == 32 || b == 9 || b == 13
}

pub open spec fn sp_is_ident_start(b: u8) -> bool {
    (97 <= b && b <= 122) || (65 <= b && b <= 90) || b == 95
}

pub open spec fn sp_is_ident_char(b: u8) -> bool {
    (97 <= b && b <= 122) || (65 <= b && b <= 90) || (48 <= b && b <= 57) || b == 95
}

fn is_ws(b: u8) -> (r: bool)
    ensures
        r == sp_is_ws(b),
{
    b == 32 || b == 9 || b == 13
}

fn is_ident_start(b: u8) -> (r: bool)
    ensures
        r == sp_is_ident_start(b),
{
    (97 <= b && b <= 122) || (65 <= b && b <= 90) || b == 95
}

fn is_ident_char(b: u8) -> (r: bool)
    ensures
        r == sp_is_ident_char(b),
{
    (97 <= b && b <= 122) || (65 <= b && b <= 90) || (48 <= b && b <= 57) || b == 95
}

// ---------------------------------------------------------------------------
// Keywords.
// ---------------------------------------------------------------------------

pub open spec fn kw_say() -> Seq<u8> {
    seq![115u8, 97u8, 121u8]
}

pub open spec fn kw_do() -> Seq<u8> {
    seq![100u8, 111u8]
}

pub open spec fn kw_hold() -> Seq<u8> {
    seq![104u8, 111u8, 108u8, 100u8]
}

pub open spec fn kw_stop() -> Seq<u8> {
    seq![115u8, 116u8, 111u8, 112u8]
}

pub open spec fn kw_foreach() -> Seq<u8> {
    seq![102u8, 111u8, 114u8, 101u8, 97u8, 99u8, 104u8]
}

pub open spec fn kw_in() -> Seq<u8> {
    seq![105u8, 110u8]
}

pub open spec fn kw_flow() -> Seq<u8> {
    seq![102u8, 108u8, 111u8, 119u8]
}

/// Byte-wise comparison of a scanned name with a keyword.
#[verifier::loop_isolation(false)]
fn name_is(name: &Vec<u8>, kw: &Vec<u8>) -> (r: bool)
    ensures
        r == (name@ == kw@),
{
    if name.len() != kw.len() {
        return false;
    }
    let mut k: usize = 0;
    while k < name.len()
        invariant
            0 <= k <= name.len(),
            name@.len() == kw@.len(),
            forall|i: int| 0 <= i < k ==> name@[i] == kw@[i],
        decreases name.len() - k,
    {
        if name[k] != kw[k] {
            return false;
        }
        k = k + 1;
    }
    proof {
        assert(name@ =~= kw@);
    }
    true
}

fn kw_vec(bytes: &[u8]) -> (r: Vec<u8>)
    ensures
        r@ == bytes@,
{
    let mut v: Vec<u8> = Vec::new();
    let mut k: usize = 0;
    while k < bytes.len()
        invariant
            0 <= k <= bytes.len(),
            v@ == bytes@.take(k as int),
        decreases bytes.len() - k,
    {
        v.push(bytes[k]);
        proof {
            assert(bytes@.take(k + 1 as int) =~= bytes@.take(k as int).push(bytes@[k as int]));
        }
        k = k + 1;
    }
    proof {
        assert(bytes@.take(bytes@.len() as int) =~= bytes@);
    }
    v
}

// ---------------------------------------------------------------------------
// The functional model of the parse.
// ---------------------------------------------------------------------------

/// The cursor one byte further on the same line.
pub open spec fn sp_adv(c: Cursor) -> Cursor {
    Cursor { i: (c.i + 1) as usize, line: c.line, col: (c.col + 1) as u32 }
}

/// The cursor at the start of the next line.
pub open spec fn sp_adv_nl(c: Cursor) -> Cursor {
    Cursor { i: (c.i + 1) as usize, line: (c.line + 1) as u32, col: 1 }
}

pub open spec fn sp_skip_ws(s: Seq<u8>, c: Cursor) -> Cursor
    decreases s.len() - c.i,
{
    if c.i >= s.len() || !src_ok(s) {
        c
    } else if s[c.i as int] == 10 {
        sp_skip_ws(s, sp_adv_nl(c))
    } else if sp_is_ws(s[c.i as int]) {
        sp_skip_ws(s, sp_adv(c))
    } else {
        c
    }
}

pub open spec fn sp_expect(s: Seq<u8>, c: Cursor, b: u8) -> Result<Cursor, ErrorInfo> {
    if c.i >= s.len() {
        Err(incomplete_err())
    } else if s[c.i as int] == b {
        Ok(sp_adv(c))
    } else {
        Err(unexpected_err(c.line, c.col))
    }
}

pub open spec fn sp_scan_ident_rest(s: Seq<u8>, c: Cursor, acc: Seq<u8>) -> (Cursor, Seq<u8>)
    decreases s.len() - c.i,
{
    if c.i >= s.len() || !src_ok(s) {
        (c, acc)
    } else if sp_is_ident_char(s[c.i as int]) {
        sp_scan_ident_rest(s, sp_adv(c), acc.push(s[c.i as int]))
    } else {
        (c, acc)
    }
}

pub open spec fn sp_scan_ident(s: Seq<u8>, c: Cursor) -> Result<
    (Cursor, Seq<u8>, Interval),
    ErrorInfo,
> {
    if c.i >= s.len() {
        Err(incomplete_err())
    } else if !sp_is_ident_start(s[c.i as int]) {
        Err(unexpected_err(c.line, c.col))
    } else {
        let p = sp_scan_ident_rest(s, sp_adv(c), seq![s[c.i as int]]);
        Ok((p.0, p.1, Interval { line: c.line, column: c.col }))
    }
}

pub open spec fn sp_scan_string_rest(s: Seq<u8>, c: Cursor, acc: Seq<u8>) -> Result<
    (Cursor, Seq<u8>),
    ErrorInfo,
>
    decreases s.len() - c.i,
{
    if c.i >= s.len() || !src_ok(s) {
        Err(incomplete_err())
    } else if s[c.i as int] == 34 {
        Ok((sp_adv(c), acc))
    } else if s[c.i as int] == 10 {
        sp_scan_string_rest(s, sp_adv_nl(c), acc.push(s[c.i as int]))
    } else {
        sp_scan_string_rest(s, sp_adv(c), acc.push(s[c.i as int]))
    }
}

pub open spec fn sp_scan_string(s: Seq<u8>, c: Cursor) -> Result<(Cursor, Seq<u8>), ErrorInfo> {
    if c.i >= s.len() {
        Err(incomplete_err())
    } else if s[c.i as int] != 34 {
        Err(unexpected_err(c.line, c.col))
    } else {
        sp_scan_string_rest(s, sp_adv(c), Seq::empty())
    }
}

pub open spec fn sp_parse_simple(s: Seq<u8>, name: Seq<u8>, itv: Interval, c: Cursor) -> Result<
    (Cursor, GSimple),
    ErrorInfo,
> {
    if name == kw_say() {
        let c1 = sp_skip_ws(s, c);
        if c1.i < s.len() && s[c1.i as int] == 34 {
            match sp_scan_string(s, c1) {
                Ok(p) => Ok((p.0, GSimple::Say(GSay::Lit(p.1), itv))),
                Err(e) => Err(e),
            }
        } else {
            match sp_scan_ident(s, c1) {
                Ok(p) => Ok((p.0, GSimple::Say(GSay::Var(p.1), itv))),
                Err(e) => Err(e),
            }
        }
    } else if name == kw_do() {
        let c1 = sp_skip_ws(s, c);
        match sp_scan_ident(s, c1) {
            Err(e) => Err(e),
            Ok(p2) => match sp_expect(s, sp_skip_ws(s, p2.0), 61) {
                Err(e) => Err(e),
                Ok(c4) => match sp_scan_string(s, sp_skip_ws(s, c4)) {
                    Err(e) => Err(e),
                    Ok(p6) => Ok((p6.0, GSimple::DoSet(p2.1, p6.1, itv))),
                },
            },
        }
    } else if name == kw_hold() {
        Ok((c, GSimple::HoldDir(itv)))
    } else if name == kw_stop() {
        Ok((c, GSimple::Stop(itv)))
    } else {
        Err(ErrorInfo { interval: itv, kind: ParseErrorKind::Unexpected })
    }
}

pub open spec fn sp_parse_str_list(s: Seq<u8>, c: Cursor, acc: Seq<Seq<u8>>) -> Result<
    (Cursor, Seq<Seq<u8>>),
    ErrorInfo,
>
    decreases s.len() - c.i,
{
    let c1 = sp_skip_ws(s, c);
    if c1.i >= s.len() || !src_ok(s) {
        Err(incomplete_err())
    } else if s[c1.i as int] == 93 {
        Ok((sp_adv(c1), acc))
    } else {
        match sp_scan_string(s, c1) {
            Err(e) => Err(e),
            Ok(p2) => {
                let acc2 = acc.push(p2.1);
                let c3 = sp_skip_ws(s, p2.0);
                if c3.i >= s.len() {
                    Err(incomplete_err())
                } else if s[c3.i as int] == 44 {
                    if c.i <= c3.i && c3.i < s.len() && src_ok(s) {
                        sp_parse_str_list(s, sp_adv(c3), acc2)
                    } else {
                        Err(incomplete_err())
                    }
                } else if s[c3.i as int] == 93 {
                    Ok((sp_adv(c3), acc2))
                } else {
                    Err(unexpected_err(c3.line, c3.col))
                }
            },
        }
    }
}

pub open spec fn sp_parse_simple_block(s: Seq<u8>, c: Cursor, acc: Seq<GSimple>) -> Result<
    (Cursor, Seq<GSimple>),
    ErrorInfo,
>
    decreases s.len() - c.i,
{
    let c1 = sp_skip_ws(s, c);
    if c1.i >= s.len() {
        Err(incomplete_err())
    } else if s[c1.i as int] == 125 {
        Ok((sp_adv(c1), acc))
    } else {
        match sp_scan_ident(s, c1) {
            Err(e) => Err(e),
            Ok(p2) => match sp_parse_simple(s, p2.1, p2.2, p2.0) {
                Err(e) => Err(e),
                Ok(p3) => {
                    if c.i < p3.0.i && p3.0.i <= s.len() {
                        sp_parse_simple_block(s, p3.0, acc.push(p3.1))
                    } else {
                        Err(incomplete_err())
                    }
                },
            },
        }
    }
}

pub open spec fn sp_parse_instr(s: Seq<u8>, c: Cursor) -> Result<(Cursor, GInstr), ErrorInfo> {
    match sp_scan_ident(s, c) {
        Err(e) => Err(e),
        Ok(p2) => {
            let name = p2.1;
            let itv = p2.2;
            let c2 = p2.0;
            if name == kw_foreach() {
                match sp_expect(s, sp_skip_ws(s, c2), 40) {
                    Err(e) => Err(e),
                    Ok(c4) => match sp_scan_ident(s, sp_skip_ws(s, c4)) {
                        Err(e) => Err(e),
                        Ok(p6) => {
                            let c7 = sp_skip_ws(s, p6.0);
                            if c7.i >= s.len() {
                                Err(incomplete_err())
                            } else {
                                let iv_step: Result<(Cursor, Option<Seq<u8>>), ErrorInfo> = if s[c7.i as int]
                                    == 44 {
                                    match sp_scan_ident(s, sp_skip_ws(s, sp_adv(c7))) {
                                        Err(e) => Err(e),
                                        Ok(p7d) => Ok((p7d.0, Option::Some(p7d.1))),
                                    }
                                } else {
                                    Ok((c7, Option::None))
                                };
                                match iv_step {
                                    Err(e) => Err(e),
                                    Ok(p8) => match sp_expect(s, sp_skip_ws(s, p8.0), 41) {
                                        Err(e) => Err(e),
                                        Ok(c10) => match sp_scan_ident(s, sp_skip_ws(s, c10)) {
                                            Err(e) => Err(e),
                                            Ok(p12) => {
                                                if p12.1 != kw_in() {
                                                    Err(ErrorInfo {
                                                        interval: p12.2,
                                                        kind: ParseErrorKind::Unexpected,
                                                    })
                                                } else {
                                                    match sp_expect(s, sp_skip_ws(s, p12.0), 91) {
                                                        Err(e) => Err(e),
                                                        Ok(c14) => match sp_parse_str_list(
                                                            s,
                                                            c14,
                                                            Seq::empty(),
                                                        ) {
                                                            Err(e) => Err(e),
                                                            Ok(p15) => match sp_expect(
                                                                s,
                                                                sp_skip_ws(s, p15.0),
                                                                123,
                                                            ) {
                                                                Err(e) => Err(e),
                                                                Ok(c17) => match sp_parse_simple_block(
                                                                    s,
                                                                    c17,
                                                                    Seq::empty(),
                                                                ) {
                                                                    Err(e) => Err(e),
                                                                    Ok(p18) => Ok(
                                                                        (
                                                                            p18.0,
                                                                            GInstr::Foreach(
                                                                                GForeach {
                                                                                    var: p6.1,
                                                                                    index_var: p8.1,
                                                                                    items: p15.1,
                                                                                    body: p18.1,
                                                                                    range: RangeInterval {
                                                                                        start: itv,
                                                                                        end: Interval {
                                                                                            line: p18.0.line,
                                                                                            column: p18.0.col,
                                                                                        },
                                                                                    },
                                                                                },
                                                                            ),
                                                                        ),
                                                                    ),
                                                                },
                                                            },
                                                        },
                                                    }
                                                }
                                            },
                                        },
                                    },
                                }
                            }
                        },
                    },
                }
            } else {
                match sp_parse_simple(s, name, itv, c2) {
                    Err(e) => Err(e),
                    Ok(p3) => Ok((p3.0, GInstr::Simple(p3.1))),
                }
            }
        },
    }
}

pub open spec fn sp_parse_block(s: Seq<u8>, c: Cursor, acc: Seq<GInstr>) -> Result<
    (Cursor, Seq<GInstr>),
    ErrorInfo,
>
    decreases s.len() - c.i,
{
    let c1 = sp_skip_ws(s, c);
    if c1.i >= s.len() {
        Err(incomplete_err())
    } else if s[c1.i as int] == 125 {
        Ok((sp_adv(c1), acc))
    } else {
        match sp_parse_instr(s, c1) {
            Err(e) => Err(e),
            Ok(p2) => {
                if c.i < p2.0.i && p2.0.i <= s.len() {
                    sp_parse_block(s, p2.0, acc.push(p2.1))
                } else {
                    Err(incomplete_err())
                }
            },
        }
    }
}

pub open spec fn sp_parse_blocks(s: Seq<u8>, c: Cursor, acc: Seq<GInstruction>) -> Result<
    Seq<GInstruction>,
    ErrorInfo,
>
    decreases s.len() - c.i,
{
    let c1 = sp_skip_ws(s, c);
    if c1.i >= s.len() {
        Ok(acc)
    } else {
        match sp_scan_ident(s, c1) {
            Err(e) => Err(e),
            Ok(p2) => {
                if p2.1 == kw_flow() {
                    match sp_expect(s, sp_skip_ws(s, p2.0), 123) {
                        Err(e) => Err(e),
                        Ok(c4) => match sp_parse_block(s, c4, Seq::empty()) {
                            Err(e) => Err(e),
                            Ok(p5) => {
                                let blk = GInstruction {
                                    tag: GTag::StartFlow,
                                    actions: p5.1,
                                    range: RangeInterval {
                                        start: p2.2,
                                        end: Interval { line: p5.0.line, column: p5.0.col },
                                    },
                                };
                                if c.i < p5.0.i && p5.0.i <= s.len() {
                                    sp_parse_blocks(s, p5.0, acc.push(blk))
                                } else {
                                    Err(incomplete_err())
                                }
                            },
                        },
                    }
                } else {
                    match sp_expect(s, sp_skip_ws(s, p2.0), 58) {
                        Err(e) => Err(e),
                        Ok(c4) => match sp_expect(s, sp_skip_ws(s, c4), 123) {
                            Err(e) => Err(e),
                            Ok(c6) => match sp_parse_block(s, c6, Seq::empty()) {
                                Err(e) => Err(e),
                                Ok(p7) => {
                                    let blk = GInstruction {
                                        tag: GTag::NormalStep(p2.1),
                                        actions: p7.1,
                                        range: RangeInterval {
                                            start: p2.2,
                                            end: Interval { line: p7.0.line, column: p7.0.col },
                                        },
                                    };
                                    if c.i < p7.0.i && p7.0.i <= s.len() {
                                        sp_parse_blocks(s, p7.0, acc.push(blk))
                                    } else {
                                        Err(incomplete_err())
                                    }
                                },
                            },
                        },
                    }
                }
            },
        }
    }
}

/// Whether two ghost tags name the same block.
pub open spec fn g_tag_eq(a: GTag, b: GTag) -> bool {
    match (a, b) {
        (GTag::StartFlow, GTag::StartFlow) => true,
        (GTag::NormalStep(x), GTag::NormalStep(y)) => x == y,
        _ => false,
    }
}

/// No two blocks of the ghost list share a tag.
pub open spec fn sp_unique(s: Seq<GInstruction>) -> bool {
    forall|i: int, j: int| 0 <= i < j < s.len() ==> !g_tag_eq(s[i].tag, s[j].tag)
}

/// What parsing a source yields: the top-level blocks in declaration order
/// when the grammar accepts the whole input and the tags are pairwise
/// distinct; the positioned grammar error, the positionless incompleteness
/// error, or the duplicate-step error at the sentinel position otherwise.
pub open spec fn sp_parse_flow(s: Seq<u8>) -> Result<Seq<GInstruction>, ErrorInfo> {
    match sp_parse_blocks(s, Cursor { i: 0, line: 1, col: 1 }, Seq::empty()) {
        Err(e) => Err(e),
        Ok(list) => if sp_unique(list) {
            Ok(list)
        } else {
            Err(dup_err())
        },
    }
}

// ---------------------------------------------------------------------------
// The executable parser, proved equal to the model.
// ---------------------------------------------------------------------------

/// Skip blanks and newlines, tracking the position.
fn skip_ws(s: &[u8], c: Cursor) -> (r: Cursor)
    requires
        cur_wf(s@, c),
        src_ok(s@),
    ensures
        cur_wf(s@, r),
        r.i >= c.i,
        r == sp_skip_ws(s@, c),
    decreases s@.len() - c.i,
{
    if c.i >= s.len() {
        return c;
    }
    let b = s[c.i];
    if b == 10 {
        skip_ws(s, Cursor { i: c.i + 1, line: c.line + 1, col: 1 })
    } else if is_ws(b) {
        skip_ws(s, Cursor { i: c.i + 1, line: c.line, col: c.col + 1 })
    } else {
        c
    }
}

/// Consume one expected punctuation byte (never a newline).
fn expect_byte(s: &[u8], c: Cursor, b: u8) -> (r: Result<Cursor, ErrorInfo>)
    requires
        cur_wf(s@, c),
        src_ok(s@),
        b != 10,
    ensures
        r == sp_expect(s@, c, b),
        match r {
            Ok(c2) => cur_wf(s@, c2) && c2.i == c.i + 1,
            Err(e) => grammar_err(e),
        },
{
    if c.i >= s.len() {
        return Err(incomplete());
    }
    if s[c.i] == b {
        Ok(Cursor { i: c.i + 1, line: c.line, col: c.col + 1 })
    } else {
        Err(unexpected(c))
    }
}

/// The identifier characters from `c` on.
fn scan_ident_rest(s: &[u8], c: Cursor, acc: Vec<u8>) -> (r: (Cursor, Vec<u8>))
    requires
        cur_wf(s@, c),
        src_ok(s@),
    ensures
        cur_wf(s@, r.0),
        r.0.i >= c.i,
        r.0 == sp_scan_ident_rest(s@, c, acc@).0,
        r.1@ == sp_scan_ident_rest(s@, c, acc@).1,
    decreases s@.len() - c.i,
{
    if c.i >= s.len() {
        return (c, acc);
    }
    let b = s[c.i];
    if is_ident_char(b) {
        let mut acc2 = acc;
        acc2.push(b);
        scan_ident_rest(s, Cursor { i: c.i + 1, line: c.line, col: c.col + 1 }, acc2)
    } else {
        (c, acc)
    }
}

/// An identifier, with the position of its first character.
fn scan_ident(s: &[u8], c: Cursor) -> (r: Result<(Cursor, Vec<u8>, Interval), ErrorInfo>)
    requires
        cur_wf(s@, c),
        src_ok(s@),
    ensures
        match r {
            Ok(p) => cur_wf(s@, p.0) && p.0.i > c.i && (match sp_scan_ident(s@, c) {
                Ok(q) => p.0 == q.0 && p.1@ == q.1 && p.2 == q.2,
                Err(_) => false,
            }),
            Err(e) => grammar_err(e) && sp_scan_ident(s@, c) == Result::<
                (Cursor, Seq<u8>, Interval),
                ErrorInfo,
            >::Err(e),
        },
{
    if c.i >= s.len() {
        return Err(incomplete());
    }
    let b = s[c.i];
    if !is_ident_start(b) {
        return Err(unexpected(c));
    }
    let itv = Interval { line: c.line, column: c.col };
    let mut acc: Vec<u8> = Vec::new();
    acc.push(b);
    proof {
        assert(acc@ =~= seq![s@[c.i as int]]);
    }
    let (c2, name) = scan_ident_rest(s, Cursor { i: c.i + 1, line: c.line, col: c.col + 1 }, acc);
    Ok((c2, name, itv))
}

fn scan_string_rest(s: &[u8], c: Cursor, acc: Vec<u8>, start: usize) -> (r: Result<
    (Cursor, Vec<u8>),
    ErrorInfo,
>)
    requires
        cur_wf(s@, c),
        src_ok(s@),
        c.i > start,
    ensures
        match r {
            Ok(p) => cur_wf(s@, p.0) && p.0.i > start && (match sp_scan_string_rest(s@, c, acc@) {
                Ok(q) => p.0 == q.0 && p.1@ == q.1,
                Err(_) => false,
            }),
            Err(e) => grammar_err(e) && sp_scan_string_rest(s@, c, acc@) == Result::<
                (Cursor, Seq<u8>),
                ErrorInfo,
            >::Err(e),
        },
    decreases s@.len() - c.i,
{
    if c.i >= s.len() {
        return Err(incomplete());
    }
    let b = s[c.i];
    if b == 34 {
        Ok((Cursor { i: c.i + 1, line: c.line, col: c.col + 1 }, acc))
    } else {
        let mut acc2 = acc;
        acc2.push(b);
        if b == 10 {
            scan_string_rest(s, Cursor { i: c.i + 1, line: c.line + 1, col: 1 }, acc2, start)
        } else {
            scan_string_rest(s, Cursor { i: c.i + 1, line: c.line, col: c.col + 1 }, acc2, start)
        }
    }
}

/// A double-quoted string literal; any byte but the closing quote may occur.
fn scan_string(s: &[u8], c: Cursor) -> (r: Result<(Cursor, Vec<u8>), ErrorInfo>)
    requires
        cur_wf(s@, c),
        src_ok(s@),
    ensures
        match r {
            Ok(p) => cur_wf(s@, p.0) && p.0.i > c.i && (match sp_scan_string(s@, c) {
                Ok(q) => p.0 == q.0 && p.1@ == q.1,
                Err(_) => false,
            }),
            Err(e) => grammar_err(e) && sp_scan_string(s@, c) == Result::<
                (Cursor, Seq<u8>),
                ErrorInfo,
            >::Err(e),
        },
{
    if c.i >= s.len() {
        return Err(incomplete());
    }
    if s[c.i] != 34 {
        return Err(unexpected(c));
    }
    let acc0: Vec<u8> = Vec::new();
    proof {
        assert(acc0@ =~= Seq::<u8>::empty());
    }
    scan_string_rest(s, Cursor { i: c.i + 1, line: c.line, col: c.col + 1 }, acc0, c.i)
}

/// One instruction without a nested block.
fn parse_simple(s: &[u8], name: Vec<u8>, itv: Interval, c: Cursor) -> (r: Result<
    (Cursor, SimpleInstr),
    ErrorInfo,
>)
    requires
        cur_wf(s@, c),
        src_ok(s@),
    ensures
        match r {
            Ok(p) => cur_wf(s@, p.0) && p.0.i >= c.i && (match sp_parse_simple(s@, name@, itv, c) {
                Ok(q) => p.0 == q.0 && simple_view(p.1) == q.1,
                Err(_) => false,
            }),
            Err(e) => grammar_err(e) && sp_parse_simple(s@, name@, itv, c) == Result::<
                (Cursor, GSimple),
                ErrorInfo,
            >::Err(e),
        },
{
    if name_is(&name, &kw_vec(&[115, 97, 121])) {
        // say
        let c1 = skip_ws(s, c);
        if c1.i < s.len() && s[c1.i] == 34 {
            let (c2, lit) = match scan_string(s, c1) {
                Ok(p) => p,
                Err(e) => {
                    return Err(e);
                },
            };
            Ok((c2, SimpleInstr::Say(SayArg::Lit(lit), itv)))
        } else {
            let (c2, var, _vitv) = match scan_ident(s, c1) {
                Ok(p) => p,
                Err(e) => {
                    return Err(e);
                },
            };
            Ok((c2, SimpleInstr::Say(SayArg::Var(var), itv)))
        }
    } else if name_is(&name, &kw_vec(&[100, 111])) {
        // do
        let c1 = skip_ws(s, c);
        let (c2, var, _vitv) = match scan_ident(s, c1) {
            Ok(p) => p,
            Err(e) => {
                return Err(e);
            },
        };
        let c3 = skip_ws(s, c2);
        let c4 = match expect_byte(s, c3, 61) {
            Ok(x) => x,
            Err(e) => {
                return Err(e);
            },
        };
        let c5 = skip_ws(s, c4);
        let (c6, value) = match scan_string(s, c5) {
            Ok(p) => p,
            Err(e) => {
                return Err(e);
            },
        };
        Ok((c6, SimpleInstr::DoSet(var, value, itv)))
    } else if name_is(&name, &kw_vec(&[104, 111, 108, 100])) {
        // hold
        Ok((c, SimpleInstr::HoldDir(itv)))
    } else if name_is(&name, &kw_vec(&[115, 116, 111, 112])) {
        // stop
        Ok((c, SimpleInstr::Stop(itv)))
    } else {
        Err(ErrorInfo { interval: itv, kind: ParseErrorKind::Unexpected })
    }
}

/// The items of a loop's literal list, after the opening bracket.
fn parse_str_list(s: &[u8], c: Cursor, acc: Vec<Vec<u8>>) -> (r: Result<
    (Cursor, Vec<Vec<u8>>),
    ErrorInfo,
>)
    requires
        cur_wf(s@, c),
        src_ok(s@),
    ensures
        match r {
            Ok(p) => cur_wf(s@, p.0) && p.0.i >= c.i && (match sp_parse_str_list(
                s@,
                c,
                items_view(acc@),
            ) {
                Ok(q) => p.0 == q.0 && items_view(p.1@) == q.1,
                Err(_) => false,
            }),
            Err(e) => grammar_err(e) && sp_parse_str_list(s@, c, items_view(acc@)) == Result::<
                (Cursor, Seq<Seq<u8>>),
                ErrorInfo,
            >::Err(e),
        },
    decreases s@.len() - c.i,
{
    let c1 = skip_ws(s, c);
    if c1.i >= s.len() {
        return Err(incomplete());
    }
    if s[c1.i] == 93 {
        // ]
        return Ok((Cursor { i: c1.i + 1, line: c1.line, col: c1.col + 1 }, acc));
    }
    let (c2, item) = match scan_string(s, c1) {
        Ok(p) => p,
        Err(e) => {
            return Err(e);
        },
    };
    let mut acc2 = acc;
    acc2.push(item);
    proof {
        assert(items_view(acc2@) =~= items_view(acc@).push(item@));
    }
    let c3 = skip_ws(s, c2);
    if c3.i >= s.len() {
        return Err(incomplete());
    }
    if s[c3.i] == 44 {
        // ,
        parse_str_list(s, Cursor { i: c3.i + 1, line: c3.line, col: c3.col + 1 }, acc2)
    } else if s[c3.i] == 93 {
        Ok((Cursor { i: c3.i + 1, line: c3.line, col: c3.col + 1 }, acc2))
    } else {
        Err(unexpected(c3))
    }
}

/// The body of a loop: simple instructions up to the closing brace.
fn parse_simple_block(s: &[u8], c: Cursor, acc: Vec<SimpleInstr>) -> (r: Result<
    (Cursor, Vec<SimpleInstr>),
    ErrorInfo,
>)
    requires
        cur_wf(s@, c),
        src_ok(s@),
    ensures
        match r {
            Ok(p) => cur_wf(s@, p.0) && p.0.i >= c.i && (match sp_parse_simple_block(
                s@,
                c,
                simples_view(acc@),
            ) {
                Ok(q) => p.0 == q.0 && simples_view(p.1@) == q.1,
                Err(_) => false,
            }),
            Err(e) => grammar_err(e) && sp_parse_simple_block(s@, c, simples_view(acc@))
                == Result::<(Cursor, Seq<GSimple>), ErrorInfo>::Err(e),
        },
    decreases s@.len() - c.i,
{
    let c1 = skip_ws(s, c);
    if c1.i >= s.len() {
        return Err(incomplete());
    }
    if s[c1.i] == 125 {
        // }
        return Ok((Cursor { i: c1.i + 1, line: c1.line, col: c1.col + 1 }, acc));
    }
    let (c2, name, itv) = match scan_ident(s, c1) {
        Ok(p) => p,
        Err(e) => {
            return Err(e);
        },
    };
    let (c3, si) = match parse_simple(s, name, itv, c2) {
        Ok(p) => p,
        Err(e) => {
            return Err(e);
        },
    };
    let mut acc2 = acc;
    acc2.push(si);
    proof {
        assert(simples_view(acc2@) =~= simples_view(acc@).push(simple_view(si)));
    }
    parse_simple_block(s, c3, acc2)
}

/// One instruction of a step's list: a simple instruction or a loop.
#[verifier::rlimit(100)]
fn parse_instr(s: &[u8], c: Cursor) -> (r: Result<(Cursor, Instr), ErrorInfo>)
    requires
        cur_wf(s@, c),
        src_ok(s@),
    ensures
        match r {
            Ok(p) => cur_wf(s@, p.0) && p.0.i > c.i && (match sp_parse_instr(s@, c) {
                Ok(q) => p.0 == q.0 && instr_view(p.1) == q.1,
                Err(_) => false,
            }),
            Err(e) => grammar_err(e) && sp_parse_instr(s@, c) == Result::<
                (Cursor, GInstr),
                ErrorInfo,
            >::Err(e),
        },
{
    let (c2, name, itv) = match scan_ident(s, c) {
        Ok(p) => p,
        Err(e) => {
            return Err(e);
        },
    };
    if name_is(&name, &kw_vec(&[102, 111, 114, 101, 97, 99, 104])) {
        // foreach ( var [, var] ) in [ items ] { body }
        let c3 = skip_ws(s, c2);
        let c4 = match expect_byte(s, c3, 40) {
            Ok(x) => x,
            Err(e) => {
                return Err(e);
            },
        };
        let c5 = skip_ws(s, c4);
        let (c6, var, _i1) = match scan_ident(s, c5) {
            Ok(p) => p,
            Err(e) => {
                return Err(e);
            },
        };
        let c7 = skip_ws(s, c6);
        if c7.i >= s.len() {
            return Err(incomplete());
        }
        let (c8, index_var) = if s[c7.i] == 44 {
            let c7b = Cursor { i: c7.i + 1, line: c7.line, col: c7.col + 1 };
            let c7c = skip_ws(s, c7b);
            let (c7d, iv, _i2) = match scan_ident(s, c7c) {
                Ok(p) => p,
                Err(e) => {
                    return Err(e);
                },
            };
            (c7d, Some(iv))
        } else {
            (c7, None)
        };
        let c9 = skip_ws(s, c8);
        let c10 = match expect_byte(s, c9, 41) {
            Ok(x) => x,
            Err(e) => {
                return Err(e);
            },
        };
        let c11 = skip_ws(s, c10);
        let (c12, kw, kitv) = match scan_ident(s, c11) {
            Ok(p) => p,
            Err(e) => {
                return Err(e);
            },
        };
        if !name_is(&kw, &kw_vec(&[105, 110])) {
            return Err(ErrorInfo { interval: kitv, kind: ParseErrorKind::Unexpected });
        }
        let c13 = skip_ws(s, c12);
        let c14 = match expect_byte(s, c13, 91) {
            Ok(x) => x,
            Err(e) => {
                return Err(e);
            },
        };
        let items0: Vec<Vec<u8>> = Vec::new();
        proof {
            assert(items_view(items0@) =~= Seq::<Seq<u8>>::empty());
        }
        let (c15, items) = match parse_str_list(s, c14, items0) {
            Ok(p) => p,
            Err(e) => {
                return Err(e);
            },
        };
        let c16 = skip_ws(s, c15);
        let c17 = match expect_byte(s, c16, 123) {
            Ok(x) => x,
            Err(e) => {
                return Err(e);
            },
        };
        let body0: Vec<SimpleInstr> = Vec::new();
        proof {
            assert(simples_view(body0@) =~= Seq::<GSimple>::empty());
        }
        let (c18, body) = match parse_simple_block(s, c17, body0) {
            Ok(p) => p,
            Err(e) => {
                return Err(e);
            },
        };
        let range = RangeInterval {
            start: itv,
            end: Interval { line: c18.line, column: c18.col },
        };
        let out = Instr::Foreach(ForeachInstr { var, index_var, items, body, range });
        proof {
            match sp_parse_instr(s@, c) {
                Ok(q) => {
                    assert(instr_view(out) =~= q.1);
                },
                Err(_) => {},
            }
        }
        Ok((c18, out))
    } else {
        let (c3, si) = match parse_simple(s, name, itv, c2) {
            Ok(p) => p,
            Err(e) => {
                return Err(e);
            },
        };
        Ok((c3, Instr::Simple(si)))
    }
}

/// A step's block: instructions up to the closing brace.
fn parse_block(s: &[u8], c: Cursor, acc: Vec<Instr>) -> (r: Result<
    (Cursor, Vec<Instr>),
    ErrorInfo,
>)
    requires
        cur_wf(s@, c),
        src_ok(s@),
    ensures
        match r {
            Ok(p) => cur_wf(s@, p.0) && p.0.i >= c.i && (match sp_parse_block(
                s@,
                c,
                instrs_view(acc@),
            ) {
                Ok(q) => p.0 == q.0 && instrs_view(p.1@) == q.1,
                Err(_) => false,
            }),
            Err(e) => grammar_err(e) && sp_parse_block(s@, c, instrs_view(acc@)) == Result::<
                (Cursor, Seq<GInstr>),
                ErrorInfo,
            >::Err(e),
        },
    decreases s@.len() - c.i,
{
    let c1 = skip_ws(s, c);
    if c1.i >= s.len() {
        return Err(incomplete());
    }
    if s[c1.i] == 125 {
        // }
        return Ok((Cursor { i: c1.i + 1, line: c1.line, col: c1.col + 1 }, acc));
    }
    let (c2, it) = match parse_instr(s, c1) {
        Ok(p) => p,
        Err(e) => {
            return Err(e);
        },
    };
    let mut acc2 = acc;
    acc2.push(it);
    proof {
        assert(instrs_view(acc2@) =~= instrs_view(acc@).push(instr_view(it)));
    }
    parse_block(s, c2, acc2)
}

/// The top level: a sequence of `flow { .. }` markers and `name : { .. }`
/// steps, up to the end of the input.
fn parse_blocks(s: &[u8], c: Cursor, acc: Vec<Instruction>) -> (r: Result<
    Vec<Instruction>,
    ErrorInfo,
>)
    requires
        cur_wf(s@, c),
        src_ok(s@),
    ensures
        match r {
            Ok(v) => match sp_parse_blocks(s@, c, instructions_view(acc@)) {
                Ok(q) => instructions_view(v@) == q,
                Err(_) => false,
            },
            Err(e) => grammar_err(e) && sp_parse_blocks(s@, c, instructions_view(acc@))
                == Result::<Seq<GInstruction>, ErrorInfo>::Err(e),
        },
    decreases s@.len() - c.i,
{
    let c1 = skip_ws(s, c);
    if c1.i >= s.len() {
        return Ok(acc);
    }
    let (c2, name, itv) = match scan_ident(s, c1) {
        Ok(p) => p,
        Err(e) => {
            return Err(e);
        },
    };
    let e1: Vec<Instr> = Vec::new();
    let e2: Vec<Instr> = Vec::new();
    proof {
        assert(instrs_view(e1@) =~= Seq::<GInstr>::empty());
        assert(instrs_view(e2@) =~= Seq::<GInstr>::empty());
    }
    if name_is(&name, &kw_vec(&[102, 108, 111, 119])) {
        // flow { ... }
        let c3 = skip_ws(s, c2);
        let c4 = match expect_byte(s, c3, 123) {
            Ok(x) => x,
            Err(e) => {
                return Err(e);
            },
        };
        let (c5, actions) = match parse_block(s, c4, e1) {
            Ok(p) => p,
            Err(e) => {
                return Err(e);
            },
        };
        let range = RangeInterval { start: itv, end: Interval { line: c5.line, column: c5.col } };
        let blk = Instruction { instruction_type: InstructionType::StartFlow, actions, range };
        let mut acc2 = acc;
        acc2.push(blk);
        proof {
            assert(instructions_view(acc2@) =~= instructions_view(acc@).push(
                instruction_view(acc2@.last())));
        }
        parse_blocks(s, c5, acc2)
    } else {
        let c3 = skip_ws(s, c2);
        let c4 = match expect_byte(s, c3, 58) {
            Ok(x) => x,
            Err(e) => {
                return Err(e);
            },
        };
        let c5 = skip_ws(s, c4);
        let c6 = match expect_byte(s, c5, 123) {
            Ok(x) => x,
            Err(e) => {
                return Err(e);
            },
        };
        let (c7, actions) = match parse_block(s, c6, e2) {
            Ok(p) => p,
            Err(e) => {
                return Err(e);
            },
        };
        let range = RangeInterval { start: itv, end: Interval { line: c7.line, column: c7.col } };
        let blk = Instruction {
            instruction_type: InstructionType::NormalStep(name),
            actions,
            range,
        };
        let mut acc2 = acc;
        acc2.push(blk);
        proof {
            assert(instructions_view(acc2@) =~= instructions_view(acc@).push(
                instruction_view(acc2@.last())));
        }
        parse_blocks(s, c7, acc2)
    }
}

/// Whether two instruction-type tags name the same block.
#[verifier::loop_isolation(false)]
fn it_eq_x(a: &InstructionType, b: &InstructionType) -> (r: bool)
    ensures
        r == it_eq(*a, *b),
{
    match (a, b) {
        (InstructionType::StartFlow, InstructionType::StartFlow) => true,
        (InstructionType::NormalStep(x), InstructionType::NormalStep(y)) => {
            if x.len() != y.len() {
                return false;
            }
            let mut k: usize = 0;
            while k < x.len()
                invariant
                    0 <= k <= x.len(),
                    x@.len() == y@.len(),
                    forall|i: int| 0 <= i < k ==> x@[i] == y@[i],
                decreases x.len() - k,
            {
                if x[k] != y[k] {
                    return false;
                }
                k = k + 1;
            }
            proof {
                assert(x@ =~= y@);
            }
            true
        },
        _ => false,
    }
}

/// Build a `Flow` from parsed blocks: succeeds with exactly the given blocks
/// when their tags are pairwise distinct, and fails with the duplicate-step
/// error — reported at the sentinel position (0,0) — exactly when two blocks
/// share a tag, whichever occurrence is scanned first.
#[verifier::loop_isolation(false)]
pub fn create_flow_from_instructions(instructions: Vec<Instruction>) -> (r: Result<
    Flow,
    ErrorInfo,
>)
    ensures
        match r {
            Ok(f) => unique_types(instructions@) && f.flow_instructions == instructions,
            Err(e) => !unique_types(instructions@) && e == dup_err(),
        },
{
    let n = instructions.len();
    let mut i: usize = 0;
    while i < n
        invariant
            0 <= i <= n,
            n == instructions@.len(),
            forall|a: int, b: int|
                0 <= a < b < n && a < i ==> !it_eq(
                    instructions@[a].instruction_type,
                    instructions@[b].instruction_type,
                ),
        decreases n - i,
    {
        let mut j: usize = i + 1;
        while j < n
            invariant
                0 <= i < j <= n,
                n == instructions@.len(),
                forall|b: int|
                    i < b < j ==> !it_eq(
                        instructions@[i as int].instruction_type,
                        instructions@[b].instruction_type,
                    ),
            decreases n - j,
        {
            if it_eq_x(&instructions[i].instruction_type, &instructions[j].instruction_type) {
                return Err(ErrorInfo {
                    interval: Interval { line: 0, column: 0 },
                    kind: ParseErrorKind::StepDuplicate,
                });
            }
            j = j + 1;
        }
        i = i + 1;
    }
    Ok(Flow { flow_instructions: instructions })
}

/// Tag equality carries over to the ghost view, so distinctness of the
/// parsed blocks and of their model agree.
proof fn lemma_unique_bridge(v: Seq<Instruction>)
    ensures
        unique_types(v) == sp_unique(instructions_view(v)),
{
    let gv = instructions_view(v);
    assert(gv.len() == v.len());
    assert forall|i: int, j: int| 0 <= i < j < v.len() implies (it_eq(
        v[i].instruction_type,
        v[j].instruction_type,
    ) == g_tag_eq(#[trigger] gv[i].tag, #[trigger] gv[j].tag)) by {
        assert(gv[i] == instruction_view(v[i]));
        assert(gv[j] == instruction_view(v[j]));
    }
    if unique_types(v) {
        assert forall|i: int, j: int| 0 <= i < j < gv.len() implies !g_tag_eq(
            #[trigger] gv[i].tag,
            #[trigger] gv[j].tag,
        ) by {
            assert(!it_eq(v[i].instruction_type, v[j].instruction_type));
        }
    }
    if sp_unique(gv) {
        assert forall|i: int, j: int| 0 <= i < j < v.len() implies !it_eq(
            v[i].instruction_type,
            v[j].instruction_type,
        ) by {
            assert(!g_tag_eq(gv[i].tag, gv[j].tag));
        }
    }
}

/// The parser's entry point.
pub struct Parser;

impl Parser {
    /// Parse source bytes into a flow.  The result is exactly what the
    /// functional model of the grammar says of the bytes: on success the
    /// returned blocks are the model's, in declaration order, with pairwise
    /// distinct tags; on failure the error is the model's — positioned at
    /// the offending token for a grammar mismatch, positionless for input
    /// that ends before a construct closes, and the duplicate-step error at
    /// the sentinel position when two blocks share a tag.
    pub fn parse_flow(slice: &[u8]) -> (r: Result<Flow, ErrorInfo>)
        requires
            src_ok(slice@),
        ensures
            match r {
                Ok(f) => f.wf() && (match sp_parse_flow(slice@) {
                    Ok(q) => instructions_view(f.flow_instructions@) == q,
                    Err(_) => false,
                }),
                Err(e) => sp_parse_flow(slice@) == Result::<Seq<GInstruction>, ErrorInfo>::Err(e),
            },
    {
        let c0 = Cursor { i: 0, line: 1, col: 1 };
        let acc0: Vec<Instruction> = Vec::new();
        proof {
            assert(instructions_view(acc0@) =~= Seq::<GInstruction>::empty());
        }
        match parse_blocks(slice, c0, acc0) {
            Ok(instructions) => {
                proof {
                    lemma_unique_bridge(instructions@);
                }
                create_flow_from_instructions(instructions)
            },
            Err(e) => Err(e),
        }
    }
}

} // verus!
