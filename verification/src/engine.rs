//! The execution engine: walks a step's instruction list depth-first,
//! emitting messages and memory writes, suspending at a hold directive, and
//! resuming by silently re-traversing everything at or before the recorded
//! position.
//!
//! The whole traversal is specified by a functional model (`model_list` and
//! its helpers); `execute` is proved to return exactly what the model says.

use vstd::prelude::*;
use crate::ast::{ForeachInstr, Instr, Instruction, Interval, SayArg, SimpleInstr, Flow,
    InstructionType};

verus! {

/// The compound execution position: the global ordinal of the instruction in
/// the traversal, plus one iteration counter per enclosing loop, outermost
/// first.
#[derive(Clone, PartialEq, Eq, Debug)]
pub struct IndexInfo {
    pub command_index: u64,
    pub loop_index: Vec<u64>,
}

/// A durable suspension record: where execution stopped, the in-flight
/// value, and the step and flow it came from.
#[derive(Clone, PartialEq, Eq, Debug)]
pub struct Hold {
    pub index: IndexInfo,
    pub content: Vec<u8>,
    pub step_id: Vec<u8>,
    pub flow_id: Vec<u8>,
}

impl Hold {
    /// A suspension record from its parts.
    pub fn new(index: IndexInfo, content: Vec<u8>, step_id: Vec<u8>, flow_id: Vec<u8>) -> (r:
        Hold)
        ensures
            r.index == index,
            r.content == content,
            r.step_id == step_id,
            r.flow_id == flow_id,
    {
        Hold { index, content, step_id, flow_id }
    }
}

/// One memory entry; a later entry for the same name shadows an earlier one.
#[derive(Clone, PartialEq, Eq, Debug)]
pub struct MemEntry {
    pub name: Vec<u8>,
    pub value: Vec<u8>,
}

/// Per-conversation execution state.
#[derive(Clone, PartialEq, Eq, Debug)]
pub struct Context {
    pub memory: Vec<MemEntry>,
    pub metadata: Vec<MemEntry>,
    pub api_info: Option<Vec<u8>>,
    pub hold: Option<Hold>,
    pub step: Vec<u8>,
    pub flow: Vec<u8>,
}

impl Context {
    /// A context from its parts.
    pub fn new(
        memory: Vec<MemEntry>,
        metadata: Vec<MemEntry>,
        api_info: Option<Vec<u8>>,
        hold: Option<Hold>,
        step: Vec<u8>,
        flow: Vec<u8>,
    ) -> (r: Context)
        ensures
            r == (Context { memory, metadata, api_info, hold, step, flow }),
    {
        Context { memory, metadata, api_info, hold, step, flow }
    }
}

/// The inbound trigger of one execution; read-only to the engine.
#[derive(Clone, PartialEq, Eq, Debug)]
pub struct Event {
    pub payload: Vec<u8>,
    pub content_type: Vec<u8>,
}

impl Event {
    /// An event from its parts.
    pub fn new(payload: Vec<u8>, content_type: Vec<u8>) -> (r: Event)
        ensures
            r == (Event { payload, content_type }),
    {
        Event { payload, content_type }
    }
}

/// The content of an emitted message: text, or the recoverable error for a
/// variable read before it was saved in memory.
#[derive(Clone, PartialEq, Eq, Debug)]
pub enum MsgContent {
    Text(Vec<u8>),
    Unset { var: Vec<u8>, interval: Interval, step: Vec<u8>, flow: Vec<u8> },
}

/// One emitted message, tagged with the position of the instruction that
/// produced it.
#[derive(Clone, PartialEq, Eq, Debug)]
pub struct EngineMsg {
    pub content: MsgContent,
    pub position: IndexInfo,
}

/// The fatal failures of a run.
#[derive(Clone, PartialEq, Eq, Debug)]
pub enum EngineError {
    StepNotFound,
}

// ---------------------------------------------------------------------------
// The functional model.
// ---------------------------------------------------------------------------

/// A position in the model: the global ordinal and the loop counters.
#[verifier::ext_equal]
pub ghost struct GIndex {
    pub cmd: int,
    pub loops: Seq<u64>,
}

/// The model of an emitted message.
#[verifier::ext_equal]
pub ghost enum GContent {
    Text(Seq<u8>),
    Unset { var: Seq<u8>, interval: Interval, step: Seq<u8>, flow: Seq<u8> },
}

#[verifier::ext_equal]
pub ghost struct GMsg {
    pub content: GContent,
    pub cmd: int,
    pub loops: Seq<u64>,
}

#[verifier::ext_equal]
pub ghost struct GHold {
    pub cmd: int,
    pub loops: Seq<u64>,
    pub content: Seq<u8>,
    pub step: Seq<u8>,
    pub flow: Seq<u8>,
}

/// The model's traversal state.
#[verifier::ext_equal]
pub ghost struct GState {
    pub pos: int,
    pub loops: Seq<u64>,
    pub mem: Seq<(Seq<u8>, Seq<u8>)>,
    pub out: Seq<GMsg>,
    pub hold: Option<GHold>,
    pub stopped: bool,
}

/// The fixed inputs of one run: the resumption target (the position of the
/// suspension being consumed, if any), the step and flow names used in
/// diagnostics, and the event payload captured by a new hold.
#[verifier::ext_equal]
pub ghost struct GEnv {
    pub target: Option<GIndex>,
    pub step: Seq<u8>,
    pub flow: Seq<u8>,
    pub event: Seq<u8>,
}

pub open spec fn idx_view(x: IndexInfo) -> GIndex {
    GIndex { cmd: x.command_index as int, loops: x.loop_index@ }
}

pub open spec fn msg_view(m: EngineMsg) -> GMsg {
    GMsg {
        content: match m.content {
            MsgContent::Text(v) => GContent::Text(v@),
            MsgContent::Unset { var, interval, step, flow } => GContent::Unset {
                var: var@,
                interval,
                step: step@,
                flow: flow@,
            },
        },
        cmd: m.position.command_index as int,
        loops: m.position.loop_index@,
    }
}

pub open spec fn hold_view(h: Hold) -> GHold {
    GHold {
        cmd: h.index.command_index as int,
        loops: h.index.loop_index@,
        content: h.content@,
        step: h.step_id@,
        flow: h.flow_id@,
    }
}

pub open spec fn hold_opt_view(h: Option<Hold>) -> Option<GHold> {
    match h {
        Option::Some(x) => Option::Some(hold_view(x)),
        Option::None => Option::None,
    }
}

pub open spec fn mem_seq_view(m: Seq<MemEntry>) -> Seq<(Seq<u8>, Seq<u8>)> {
    m.map_values(|e: MemEntry| (e.name@, e.value@))
}

/// The model view of a sequence of emitted messages.
pub open spec fn out_view(v: Seq<EngineMsg>) -> Seq<GMsg> {
    v.map_values(|m: EngineMsg| msg_view(m))
}

/// Lexicographic order on loop-counter stacks, entry by entry; when one stack
/// is a prefix of the other, the shorter (the instruction outside the loop)
/// comes first.
pub open spec fn lex_le(a: Seq<u64>, b: Seq<u64>) -> bool
    decreases a.len(),
{
    if a.len() == 0 {
        true
    } else if b.len() == 0 {
        false
    } else if a[0] < b[0] {
        true
    } else if a[0] > b[0] {
        false
    } else {
        lex_le(a.drop_first(), b.drop_first())
    }
}

/// Whether position (`cmd`, `loops`) is at or before the target `t`:
/// comparison is by the global ordinal first, then by the loop counters.
pub open spec fn at_or_before(cmd: int, loops: Seq<u64>, t: GIndex) -> bool {
    cmd < t.cmd || (cmd == t.cmd && lex_le(loops, t.loops))
}

/// A resumed run replays silently every instruction at or before the
/// recorded position: the suspension point itself was already consumed when
/// the hold was taken, so live emission restarts strictly after it.
pub open spec fn suppressed(st: GState, env: GEnv) -> bool {
    match env.target {
        Option::Some(t) => at_or_before(st.pos, st.loops, t),
        Option::None => false,
    }
}

/// Last-wins lookup in the memory model.
pub open spec fn mem_lookup(mem: Seq<(Seq<u8>, Seq<u8>)>, name: Seq<u8>) -> Option<Seq<u8>>
    decreases mem.len(),
{
    if mem.len() == 0 {
        Option::None
    } else if mem.last().0 == name {
        Option::Some(mem.last().1)
    } else {
        mem_lookup(mem.drop_last(), name)
    }
}

/// The decimal digits of a number, most significant first.
pub open spec fn dec_bytes(n: nat) -> Seq<u8>
    decreases n,
{
    if n < 10 {
        seq![(48 + n) as u8]
    } else {
        dec_bytes(n / 10).push((48 + n % 10) as u8)
    }
}

/// What an emission instruction produces: the literal, the value found in
/// memory, or the recoverable used-before-saved error.
pub open spec fn say_content(arg: SayArg, itv: Interval, mem: Seq<(Seq<u8>, Seq<u8>)>, env: GEnv)
    -> GContent {
    match arg {
        SayArg::Lit(v) => GContent::Text(v@),
        SayArg::Var(n) => match mem_lookup(mem, n@) {
            Option::Some(v) => GContent::Text(v),
            Option::None => GContent::Unset { var: n@, interval: itv, step: env.step, flow: env.flow },
        },
    }
}

/// One simple instruction: it occupies one position; if suppressed it has no
/// effect, otherwise it emits, writes memory, suspends or stops.
pub open spec fn model_simple(si: SimpleInstr, st: GState, env: GEnv) -> GState {
    if st.stopped {
        st
    } else {
        let sup = suppressed(st, env);
        match si {
            SimpleInstr::Say(arg, itv) => {
                if sup {
                    GState { pos: st.pos + 1, ..st }
                } else {
                    GState {
                        pos: st.pos + 1,
                        out: st.out.push(
                            GMsg {
                                content: say_content(arg, itv, st.mem, env),
                                cmd: st.pos,
                                loops: st.loops,
                            },
                        ),
                        ..st
                    }
                }
            },
            SimpleInstr::DoSet(name, value, _itv) => {
                if sup {
                    GState { pos: st.pos + 1, ..st }
                } else {
                    GState { pos: st.pos + 1, mem: st.mem.push((name@, value@)), ..st }
                }
            },
            SimpleInstr::HoldDir(_itv) => {
                if sup {
                    GState { pos: st.pos + 1, ..st }
                } else {
                    GState {
                        pos: st.pos + 1,
                        hold: Option::Some(
                            GHold {
                                cmd: st.pos,
                                loops: st.loops,
                                content: env.event,
                                step: env.step,
                                flow: env.flow,
                            },
                        ),
                        stopped: true,
                        ..st
                    }
                }
            },
            SimpleInstr::Stop(_itv) => {
                if sup {
                    GState { pos: st.pos + 1, ..st }
                } else {
                    GState { pos: st.pos + 1, stopped: true, ..st }
                }
            },
        }
    }
}

/// A loop body, from its `k`-th instruction on.
pub open spec fn model_body(body: Seq<SimpleInstr>, k: int, st: GState, env: GEnv) -> GState
    decreases body.len() - k,
{
    if k < 0 || k >= body.len() || st.stopped {
        st
    } else {
        model_body(body, k + 1, model_simple(body[k], st, env), env)
    }
}

/// The remaining iterations of a loop, from iteration `j` on: the innermost
/// counter is incremented before the body is evaluated, and the loop
/// variables are bound unless the iteration start is still suppressed.
pub open spec fn model_iters(fe: ForeachInstr, j: int, st: GState, env: GEnv) -> GState
    decreases fe.items@.len() - j,
{
    if j < 0 || j >= fe.items@.len() || st.stopped || st.loops.len() == 0 {
        st
    } else {
        let st1 = GState {
            loops: st.loops.update(st.loops.len() - 1, (j + 1) as u64),
            ..st
        };
        let bound = if suppressed(st1, env) {
            st1
        } else {
            let m1 = st1.mem.push((fe.var@, fe.items@[j]@));
            let m2 = match fe.index_var {
                Option::Some(iv) => m1.push((iv@, dec_bytes(j as nat))),
                Option::None => m1,
            };
            GState { mem: m2, ..st1 }
        };
        model_iters(fe, j + 1, model_body(fe.body@, 0, bound, env), env)
    }
}

/// One instruction: a simple instruction, or a loop, whose header occupies
/// one position and which pushes a fresh counter for its iterations and pops
/// it on exit.
pub open spec fn model_instr(it: Instr, st: GState, env: GEnv) -> GState {
    if st.stopped {
        st
    } else {
        match it {
            Instr::Simple(si) => model_simple(si, st, env),
            Instr::Foreach(fe) => {
                let st1 = GState { pos: st.pos + 1, loops: st.loops.push(0), ..st };
                let st2 = model_iters(fe, 0, st1, env);
                GState { loops: st2.loops.drop_last(), ..st2 }
            },
        }
    }
}

/// A step's instruction list, from its `k`-th instruction on.
pub open spec fn model_list(instrs: Seq<Instr>, k: int, st: GState, env: GEnv) -> GState
    decreases instrs.len() - k,
{
    if k < 0 || k >= instrs.len() || st.stopped {
        st
    } else {
        model_list(instrs, k + 1, model_instr(instrs[k], st, env), env)
    }
}

/// The state a run starts from: position zero, no loop counters, the
/// context's memory, nothing emitted, no hold, not stopped.
pub open spec fn init_state(mem: Seq<(Seq<u8>, Seq<u8>)>) -> GState {
    GState {
        pos: 0,
        loops: Seq::empty(),
        mem: mem,
        out: Seq::empty(),
        hold: Option::None,
        stopped: false,
    }
}

// ---------------------------------------------------------------------------
// Weights: how many positions a traversal of each construct occupies.
// ---------------------------------------------------------------------------

/// Positions occupied by `n` iterations of a body of `b` instructions.
pub open spec fn witers(n: int, b: int) -> int
    decreases n,
{
    if n <= 0 {
        0
    } else {
        b + witers(n - 1, b)
    }
}

pub open spec fn weight_instr(it: Instr) -> int {
    match it {
        Instr::Simple(_) => 1,
        Instr::Foreach(fe) => 1 + witers(fe.items@.len() as int, fe.body@.len() as int),
    }
}

pub open spec fn weight_list(instrs: Seq<Instr>, k: int) -> int
    decreases instrs.len() - k,
{
    if k < 0 || k >= instrs.len() {
        0
    } else {
        weight_instr(instrs[k]) + weight_list(instrs, k + 1)
    }
}

pub proof fn lemma_witers_nonneg(n: int, b: int)
    requires
        b >= 0,
    ensures
        witers(n, b) >= 0,
    decreases n,
{
    if n > 0 {
        lemma_witers_nonneg(n - 1, b);
    }
}

pub proof fn lemma_weight_list_nonneg(instrs: Seq<Instr>, k: int)
    ensures
        weight_list(instrs, k) >= 0,
    decreases instrs.len() - k,
{
    if 0 <= k < instrs.len() {
        match instrs[k] {
            Instr::Simple(_) => {},
            Instr::Foreach(fe) => {
                lemma_witers_nonneg(fe.items@.len() as int, fe.body@.len() as int);
            },
        }
        lemma_weight_list_nonneg(instrs, k + 1);
    }
}

/// The iterations of a loop occupy exactly one position per body
/// instruction per iteration.
pub proof fn lemma_witers_product(n: int, b: int)
    requires
        n >= 0,
        b >= 0,
    ensures
        witers(n, b) == n * b,
    decreases n,
{
    if n > 0 {
        lemma_witers_product(n - 1, b);
        assert((n - 1) * b + b == n * b) by (nonlinear_arith);
    } else {
        assert(n * b == 0) by (nonlinear_arith)
            requires
                n == 0,
        ;
    }
}

/// Every step of the flow occupies few enough positions for the position
/// counter (a machine limit, unreachable for any realistic flow).
pub open spec fn flow_weight_ok(flow: Flow) -> bool {
    forall|k: int|
        0 <= k < flow.flow_instructions@.len() ==> weight_list(
            #[trigger] flow.flow_instructions@[k].actions@,
            0,
        ) < 0xffff_ffff_ffff_ffff
}

/// The positions a step's list occupies from its `k`-th instruction on,
/// where that count is representable.
fn weight_list_checked(instrs: &Vec<Instr>, k: usize) -> (r: Option<u64>)
    requires
        k <= instrs.len(),
    ensures
        match r {
            Option::Some(w) => w as int == weight_list(instrs@, k as int),
            Option::None => weight_list(instrs@, k as int) > u64::MAX,
        },
    decreases instrs.len() - k,
{
    if k == instrs.len() {
        return Option::Some(0);
    }
    proof {
        lemma_weight_list_nonneg(instrs@, k + 1 as int);
    }
    let wi: u64 = match &instrs[k] {
        Instr::Simple(_) => 1,
        Instr::Foreach(fe) => {
            proof {
                lemma_witers_product(fe.items@.len() as int, fe.body@.len() as int);
            }
            match (fe.items.len() as u64).checked_mul(fe.body.len() as u64) {
                Option::Some(p) => match p.checked_add(1) {
                    Option::Some(w) => w,
                    Option::None => {
                        return Option::None;
                    },
                },
                Option::None => {
                    return Option::None;
                },
            }
        },
    };
    match weight_list_checked(instrs, k + 1) {
        Option::None => Option::None,
        Option::Some(rest) => match wi.checked_add(rest) {
            Option::Some(t) => Option::Some(t),
            Option::None => Option::None,
        },
    }
}

/// Whether every step of the flow stays within the position counter's
/// machine limit: the runtime test of `flow_weight_ok`, letting a caller
/// chain a freshly parsed flow into `execute`.
#[verifier::loop_isolation(false)]
pub fn flow_weight_check(flow: &Flow) -> (r: bool)
    ensures
        r == flow_weight_ok(*flow),
{
    let s = &flow.flow_instructions;
    let mut k: usize = 0;
    while k < s.len()
        invariant
            0 <= k <= s.len(),
            forall|j: int|
                0 <= j < k ==> weight_list(#[trigger] flow.flow_instructions@[j].actions@, 0)
                    < 0xffff_ffff_ffff_ffff,
        decreases s.len() - k,
    {
        match weight_list_checked(&s[k].actions, 0) {
            Option::Some(w) => {
                if w >= 0xffff_ffff_ffff_ffff {
                    return false;
                }
            },
            Option::None => {
                return false;
            },
        }
        k = k + 1;
    }
    true
}

// ---------------------------------------------------------------------------
// Frame lemmas: positions advance by at most the weight, loop counters keep
// their shape, and outputs are appended in strictly increasing position
// order.
// ---------------------------------------------------------------------------

pub open spec fn frame_ok(st: GState, res: GState, w: int) -> bool {
    &&& st.pos <= res.pos <= st.pos + w
    &&& res.loops == st.loops
    &&& out_extended(st, res)
}

/// The run only appends messages, every new message sits at a position in
/// `[st.pos, res.pos)`, and new messages are strictly ordered by position.
pub open spec fn out_extended(st: GState, res: GState) -> bool {
    &&& res.out.len() >= st.out.len()
    &&& (forall|i: int| 0 <= i < st.out.len() ==> res.out[i] == st.out[i])
    &&& (forall|i: int|
        st.out.len() <= i < res.out.len() ==> st.pos <= #[trigger] res.out[i].cmd < res.pos)
    &&& (forall|i: int, j: int|
        st.out.len() <= i < j < res.out.len() ==> #[trigger] res.out[i].cmd
            < #[trigger] res.out[j].cmd)
}

pub proof fn lemma_simple_frame(si: SimpleInstr, st: GState, env: GEnv)
    ensures
        frame_ok(st, model_simple(si, st, env), 1),
{
}

pub proof fn lemma_body_frame(body: Seq<SimpleInstr>, k: int, st: GState, env: GEnv)
    ensures
        frame_ok(st, model_body(body, k, st, env), if body.len() - k >= 0 {
            body.len() - k
        } else {
            0
        }),
    decreases body.len() - k,
{
    if 0 <= k < body.len() && !st.stopped {
        let st1 = model_simple(body[k], st, env);
        lemma_simple_frame(body[k], st, env);
        lemma_body_frame(body, k + 1, st1, env);
    }
}

pub proof fn lemma_out_extended_trans(a: GState, b: GState, c: GState)
    requires
        out_extended(a, b),
        out_extended(b, c),
        a.pos <= b.pos <= c.pos,
    ensures
        out_extended(a, c),
{
    assert forall|i: int, j: int| a.out.len() <= i < j < c.out.len() implies #[trigger] c.out[i].cmd
        < #[trigger] c.out[j].cmd by {
        if j < b.out.len() {
        } else if i >= b.out.len() {
        } else {
            assert(c.out[i].cmd < b.pos);
            assert(c.out[j].cmd >= b.pos);
        }
    }
}

pub proof fn lemma_iters_frame(fe: ForeachInstr, j: int, st: GState, env: GEnv)
    ensures
        st.pos <= model_iters(fe, j, st, env).pos <= st.pos + witers(fe.items@.len() - j,
            fe.body@.len() as int),
        model_iters(fe, j, st, env).loops.len() == st.loops.len(),
        forall|i: int|
            0 <= i < st.loops.len() - 1 ==> #[trigger] model_iters(fe, j, st, env).loops[i]
                == st.loops[i],
        out_extended(st, model_iters(fe, j, st, env)),
    decreases fe.items@.len() - j,
{
    lemma_witers_nonneg(fe.items@.len() - j, fe.body@.len() as int);
    lemma_witers_nonneg(fe.items@.len() - j - 1, fe.body@.len() as int);
    if !(j < 0 || j >= fe.items@.len() || st.stopped || st.loops.len() == 0) {
        let st1 = GState { loops: st.loops.update(st.loops.len() - 1, (j + 1) as u64), ..st };
        let bound = if suppressed(st1, env) {
            st1
        } else {
            let m1 = st1.mem.push((fe.var@, fe.items@[j]@));
            let m2 = match fe.index_var {
                Option::Some(iv) => m1.push((iv@, dec_bytes(j as nat))),
                Option::None => m1,
            };
            GState { mem: m2, ..st1 }
        };
        let st2 = model_body(fe.body@, 0, bound, env);
        lemma_body_frame(fe.body@, 0, bound, env);
        lemma_iters_frame(fe, j + 1, st2, env);
        lemma_out_extended_trans(st1, st2, model_iters(fe, j + 1, st2, env));
    }
}

pub proof fn lemma_instr_frame(it: Instr, st: GState, env: GEnv)
    ensures
        frame_ok(st, model_instr(it, st, env), weight_instr(it)),
    decreases it,
{
    match it {
        Instr::Simple(si) => {
            lemma_simple_frame(si, st, env);
        },
        Instr::Foreach(fe) => {
            if !st.stopped {
                let st1 = GState { pos: st.pos + 1, loops: st.loops.push(0), ..st };
                lemma_iters_frame(fe, 0, st1, env);
                let st2 = model_iters(fe, 0, st1, env);
                assert(st2.loops.drop_last() =~= st.loops);
            }
            lemma_witers_nonneg(fe.items@.len() as int, fe.body@.len() as int);
        },
    }
}

pub proof fn lemma_list_frame(instrs: Seq<Instr>, k: int, st: GState, env: GEnv)
    ensures
        frame_ok(st, model_list(instrs, k, st, env), if weight_list(instrs, k) >= 0 {
            weight_list(instrs, k)
        } else {
            0
        }),
    decreases instrs.len() - k,
{
    lemma_weight_list_nonneg(instrs, k);
    lemma_weight_list_nonneg(instrs, k + 1);
    if 0 <= k < instrs.len() && !st.stopped {
        let st1 = model_instr(instrs[k], st, env);
        lemma_instr_frame(instrs[k], st, env);
        lemma_list_frame(instrs, k + 1, st1, env);
        lemma_out_extended_trans(st, st1, model_list(instrs, k + 1, st1, env));
    }
}

/// Strict order on positions: by the global ordinal first, then by the loop
/// counters.
pub open spec fn pos_lt(a: GMsg, b: GMsg) -> bool {
    a.cmd < b.cmd || (a.cmd == b.cmd && lex_le(a.loops, b.loops) && a.loops != b.loops)
}

/// Messages of one run are emitted in strictly increasing position order:
/// for two outputs of the same traversal, the earlier one carries the
/// strictly smaller position, and never the other way round — position
/// order and emission order coincide.
pub proof fn lemma_visit_order(instrs: Seq<Instr>, mem: Seq<(Seq<u8>, Seq<u8>)>, env: GEnv)
    ensures
        forall|i: int, j: int|
            0 <= i < j < model_list(instrs, 0, init_state(mem), env).out.len() ==> pos_lt(
                #[trigger] model_list(instrs, 0, init_state(mem), env).out[i],
                #[trigger] model_list(instrs, 0, init_state(mem), env).out[j],
            ) && !pos_lt(
                model_list(instrs, 0, init_state(mem), env).out[j],
                model_list(instrs, 0, init_state(mem), env).out[i],
            ),
{
    lemma_list_frame(instrs, 0, init_state(mem), env);
}

// ---------------------------------------------------------------------------
// A resumed run emits only strictly after the consumed position.
// ---------------------------------------------------------------------------

/// No message of `res` beyond those of `st` sits at or before the target.
pub open spec fn new_out_after(st: GState, res: GState, t: GIndex) -> bool {
    forall|i: int|
        st.out.len() <= i < res.out.len() ==> !at_or_before(
            #[trigger] res.out[i].cmd,
            res.out[i].loops,
            t,
        )
}

proof fn lemma_simple_after(si: SimpleInstr, st: GState, env: GEnv, t: GIndex)
    requires
        env.target == Option::Some(t),
    ensures
        new_out_after(st, model_simple(si, st, env), t),
{
}

proof fn lemma_body_after(body: Seq<SimpleInstr>, k: int, st: GState, env: GEnv, t: GIndex)
    requires
        env.target == Option::Some(t),
    ensures
        new_out_after(st, model_body(body, k, st, env), t),
    decreases body.len() - k,
{
    if 0 <= k < body.len() && !st.stopped {
        let st1 = model_simple(body[k], st, env);
        lemma_simple_after(body[k], st, env, t);
        lemma_simple_frame(body[k], st, env);
        lemma_body_frame(body, k + 1, st1, env);
        lemma_body_after(body, k + 1, st1, env, t);
    }
}

proof fn lemma_iters_after(fe: ForeachInstr, j: int, st: GState, env: GEnv, t: GIndex)
    requires
        env.target == Option::Some(t),
    ensures
        new_out_after(st, model_iters(fe, j, st, env), t),
    decreases fe.items@.len() - j,
{
    if !(j < 0 || j >= fe.items@.len() || st.stopped || st.loops.len() == 0) {
        let st1 = GState { loops: st.loops.update(st.loops.len() - 1, (j + 1) as u64), ..st };
        let bound = if suppressed(st1, env) {
            st1
        } else {
            let m1 = st1.mem.push((fe.var@, fe.items@[j]@));
            let m2 = match fe.index_var {
                Option::Some(iv) => m1.push((iv@, dec_bytes(j as nat))),
                Option::None => m1,
            };
            GState { mem: m2, ..st1 }
        };
        let st2 = model_body(fe.body@, 0, bound, env);
        lemma_body_after(fe.body@, 0, bound, env, t);
        lemma_body_frame(fe.body@, 0, bound, env);
        lemma_iters_frame(fe, j + 1, st2, env);
        lemma_iters_after(fe, j + 1, st2, env, t);
    }
}

proof fn lemma_instr_after(it: Instr, st: GState, env: GEnv, t: GIndex)
    requires
        env.target == Option::Some(t),
    ensures
        new_out_after(st, model_instr(it, st, env), t),
{
    if !st.stopped {
        match it {
            Instr::Simple(si) => {
                lemma_simple_after(si, st, env, t);
            },
            Instr::Foreach(fe) => {
                let st1 = GState { pos: st.pos + 1, loops: st.loops.push(0), ..st };
                lemma_iters_after(fe, 0, st1, env, t);
            },
        }
    }
}

proof fn lemma_list_after(instrs: Seq<Instr>, k: int, st: GState, env: GEnv, t: GIndex)
    requires
        env.target == Option::Some(t),
    ensures
        new_out_after(st, model_list(instrs, k, st, env), t),
    decreases instrs.len() - k,
{
    if 0 <= k < instrs.len() && !st.stopped {
        let st1 = model_instr(instrs[k], st, env);
        lemma_instr_after(instrs[k], st, env, t);
        lemma_instr_frame(instrs[k], st, env);
        lemma_list_frame(instrs, k + 1, st1, env);
        lemma_list_after(instrs, k + 1, st1, env, t);
    }
}

/// A resumed run replays silently everything at or before the consumed
/// position: every message it emits sits strictly after that position.
pub proof fn lemma_resume_emits_after_target(
    instrs: Seq<Instr>,
    mem: Seq<(Seq<u8>, Seq<u8>)>,
    env: GEnv,
    t: GIndex,
)
    requires
        env.target == Option::Some(t),
    ensures
        forall|i: int|
            0 <= i < model_list(instrs, 0, init_state(mem), env).out.len() ==> !at_or_before(
                #[trigger] model_list(instrs, 0, init_state(mem), env).out[i].cmd,
                model_list(instrs, 0, init_state(mem), env).out[i].loops,
                t,
            ),
{
    lemma_list_after(instrs, 0, init_state(mem), env, t);
}

// ---------------------------------------------------------------------------
// Resuming from a position beyond everything reachable yields an empty,
// successful run.
// ---------------------------------------------------------------------------

pub proof fn lemma_simple_beyond(si: SimpleInstr, st: GState, env: GEnv, t: GIndex)
    requires
        env.target == Option::Some(t),
        st.pos + 1 <= t.cmd,
    ensures
        model_simple(si, st, env) == (GState {
            pos: if st.stopped {
                st.pos
            } else {
                st.pos + 1
            },
            ..st
        }),
{
    if !st.stopped {
        assert(suppressed(st, env));
    }
}

pub proof fn lemma_body_beyond(body: Seq<SimpleInstr>, k: int, st: GState, env: GEnv, t: GIndex)
    requires
        env.target == Option::Some(t),
        st.pos + (if body.len() - k >= 0 {
            body.len() - k
        } else {
            0
        }) <= t.cmd,
    ensures
        ({
            let res = model_body(body, k, st, env);
            res.pos <= t.cmd && res == (GState { pos: res.pos, ..st })
        }),
    decreases body.len() - k,
{
    if 0 <= k < body.len() && !st.stopped {
        lemma_simple_beyond(body[k], st, env, t);
        lemma_body_beyond(body, k + 1, model_simple(body[k], st, env), env, t);
    }
}

pub proof fn lemma_iters_beyond(fe: ForeachInstr, j: int, st: GState, env: GEnv, t: GIndex)
    requires
        env.target == Option::Some(t),
        st.pos + witers(fe.items@.len() - j, fe.body@.len() as int) <= t.cmd,
    ensures
        ({
            let res = model_iters(fe, j, st, env);
            res.pos <= t.cmd && res.out == st.out && res.hold == st.hold && res.stopped
                == st.stopped && res.pos >= st.pos
        }),
    decreases fe.items@.len() - j,
{
    lemma_witers_nonneg(fe.items@.len() - j, fe.body@.len() as int);
    lemma_witers_nonneg(fe.items@.len() - j - 1, fe.body@.len() as int);
    if !(j < 0 || j >= fe.items@.len() || st.stopped || st.loops.len() == 0) {
        let st1 = GState { loops: st.loops.update(st.loops.len() - 1, (j + 1) as u64), ..st };
        let bound = if suppressed(st1, env) {
            st1
        } else {
            let m1 = st1.mem.push((fe.var@, fe.items@[j]@));
            let m2 = match fe.index_var {
                Option::Some(iv) => m1.push((iv@, dec_bytes(j as nat))),
                Option::None => m1,
            };
            GState { mem: m2, ..st1 }
        };
        lemma_body_beyond(fe.body@, 0, bound, env, t);
        lemma_body_frame(fe.body@, 0, bound, env);
        let st2 = model_body(fe.body@, 0, bound, env);
        lemma_iters_beyond(fe, j + 1, st2, env, t);
    }
}

pub proof fn lemma_instr_beyond(it: Instr, st: GState, env: GEnv, t: GIndex)
    requires
        env.target == Option::Some(t),
        st.pos + weight_instr(it) <= t.cmd,
    ensures
        ({
            let res = model_instr(it, st, env);
            res.pos <= t.cmd && res.out == st.out && res.hold == st.hold && res.stopped
                == st.stopped && res.pos >= st.pos && res.loops == st.loops
        }),
{
    match it {
        Instr::Simple(si) => {
            lemma_simple_beyond(si, st, env, t);
        },
        Instr::Foreach(fe) => {
            lemma_witers_nonneg(fe.items@.len() as int, fe.body@.len() as int);
            if !st.stopped {
                let st1 = GState { pos: st.pos + 1, loops: st.loops.push(0), ..st };
                lemma_iters_beyond(fe, 0, st1, env, t);
                lemma_iters_frame(fe, 0, st1, env);
                let st2 = model_iters(fe, 0, st1, env);
                assert(st2.loops.drop_last() =~= st.loops);
            }
        },
    }
}

/// Resume-from-beyond-end: when the recorded position lies at or beyond
/// every position this run can reach, the whole traversal is replayed
/// silently — no output, no new hold, no error.
pub proof fn lemma_beyond_end(instrs: Seq<Instr>, mem: Seq<(Seq<u8>, Seq<u8>)>, env: GEnv,
    t: GIndex)
    requires
        env.target == Option::Some(t),
        weight_list(instrs, 0) <= t.cmd,
    ensures
        model_list(instrs, 0, init_state(mem), env).out =~= Seq::<GMsg>::empty(),
        model_list(instrs, 0, init_state(mem), env).hold is None,
    decreases instrs.len(),
{
    lemma_list_beyond(instrs, 0, init_state(mem), env, t);
}

pub proof fn lemma_list_beyond(instrs: Seq<Instr>, k: int, st: GState, env: GEnv, t: GIndex)
    requires
        env.target == Option::Some(t),
        st.pos + weight_list(instrs, k) <= t.cmd,
    ensures
        ({
            let res = model_list(instrs, k, st, env);
            res.pos <= t.cmd && res.out == st.out && res.hold == st.hold && res.stopped
                == st.stopped
        }),
    decreases instrs.len() - k,
{
    lemma_weight_list_nonneg(instrs, k);
    lemma_weight_list_nonneg(instrs, k + 1);
    if 0 <= k < instrs.len() && !st.stopped {
        lemma_instr_beyond(instrs[k], st, env, t);
        lemma_instr_frame(instrs[k], st, env);
        lemma_list_beyond(instrs, k + 1, model_instr(instrs[k], st, env), env, t);
    }
}

/// The two run inputs agree except that the first resumes from the
/// theoretical "before everything" position — one strictly below every
/// reachable ordinal — and the second is a fresh run.
pub open spec fn fresh_pair(env1: GEnv, env2: GEnv) -> bool {
    &&& env1.target is Some
    &&& env1.target->0.cmd < 0
    &&& env2.target is None
    &&& env1.step == env2.step
    &&& env1.flow == env2.flow
    &&& env1.event == env2.event
}

proof fn lemma_simple_fresh(si: SimpleInstr, st: GState, env1: GEnv, env2: GEnv)
    requires
        fresh_pair(env1, env2),
        st.pos >= 0,
    ensures
        model_simple(si, st, env1) == model_simple(si, st, env2),
{
    assert(!suppressed(st, env1));
    assert(!suppressed(st, env2));
    assert(model_simple(si, st, env1) =~= model_simple(si, st, env2));
}

proof fn lemma_body_fresh(body: Seq<SimpleInstr>, k: int, st: GState, env1: GEnv, env2: GEnv)
    requires
        fresh_pair(env1, env2),
        st.pos >= 0,
    ensures
        model_body(body, k, st, env1) == model_body(body, k, st, env2),
    decreases body.len() - k,
{
    if 0 <= k < body.len() && !st.stopped {
        lemma_simple_fresh(body[k], st, env1, env2);
        lemma_simple_frame(body[k], st, env1);
        lemma_body_fresh(body, k + 1, model_simple(body[k], st, env1), env1, env2);
    }
}

proof fn lemma_iters_fresh(fe: ForeachInstr, j: int, st: GState, env1: GEnv, env2: GEnv)
    requires
        fresh_pair(env1, env2),
        st.pos >= 0,
    ensures
        model_iters(fe, j, st, env1) == model_iters(fe, j, st, env2),
    decreases fe.items@.len() - j,
{
    if !(j < 0 || j >= fe.items@.len() || st.stopped || st.loops.len() == 0) {
        let st1 = GState { loops: st.loops.update(st.loops.len() - 1, (j + 1) as u64), ..st };
        assert(!suppressed(st1, env1));
        assert(!suppressed(st1, env2));
        let bound = {
            let m1 = st1.mem.push((fe.var@, fe.items@[j]@));
            let m2 = match fe.index_var {
                Option::Some(iv) => m1.push((iv@, dec_bytes(j as nat))),
                Option::None => m1,
            };
            GState { mem: m2, ..st1 }
        };
        lemma_body_fresh(fe.body@, 0, bound, env1, env2);
        lemma_body_frame(fe.body@, 0, bound, env1);
        lemma_iters_fresh(fe, j + 1, model_body(fe.body@, 0, bound, env1), env1, env2);
    }
}

proof fn lemma_instr_fresh(it: Instr, st: GState, env1: GEnv, env2: GEnv)
    requires
        fresh_pair(env1, env2),
        st.pos >= 0,
    ensures
        model_instr(it, st, env1) == model_instr(it, st, env2),
{
    if !st.stopped {
        match it {
            Instr::Simple(si) => {
                lemma_simple_fresh(si, st, env1, env2);
            },
            Instr::Foreach(fe) => {
                let st1 = GState { pos: st.pos + 1, loops: st.loops.push(0), ..st };
                lemma_iters_fresh(fe, 0, st1, env1, env2);
            },
        }
    }
}

/// Resume-from-none equals a fresh run: executing with no hold and
/// executing with a hold at the theoretical "before everything" position —
/// one ordered strictly before every reachable position, so that nothing is
/// replayed silently — produce identical results, output sequence included.
pub proof fn lemma_resume_before_everything_is_fresh(
    instrs: Seq<Instr>,
    mem: Seq<(Seq<u8>, Seq<u8>)>,
    env1: GEnv,
    env2: GEnv,
)
    requires
        fresh_pair(env1, env2),
    ensures
        model_list(instrs, 0, init_state(mem), env1) == model_list(instrs, 0, init_state(mem),
            env2),
{
    lemma_list_fresh(instrs, 0, init_state(mem), env1, env2);
}

proof fn lemma_list_fresh(instrs: Seq<Instr>, k: int, st: GState, env1: GEnv, env2: GEnv)
    requires
        fresh_pair(env1, env2),
        st.pos >= 0,
    ensures
        model_list(instrs, k, st, env1) == model_list(instrs, k, st, env2),
    decreases instrs.len() - k,
{
    if 0 <= k < instrs.len() && !st.stopped {
        lemma_instr_fresh(instrs[k], st, env1, env2);
        lemma_instr_frame(instrs[k], st, env1);
        lemma_list_fresh(instrs, k + 1, model_instr(instrs[k], st, env1), env1, env2);
    }
}

// ---------------------------------------------------------------------------
// The executable engine, proved equal to the model.
// ---------------------------------------------------------------------------

/// The fixed inputs of one run, as the executable traversal carries them.
pub struct RunEnv {
    pub target: Option<IndexInfo>,
    pub step: Vec<u8>,
    pub flow: Vec<u8>,
    pub event: Vec<u8>,
}

pub open spec fn env_view(e: RunEnv) -> GEnv {
    GEnv {
        target: match e.target {
            Option::Some(t) => Option::Some(idx_view(t)),
            Option::None => Option::None,
        },
        step: e.step@,
        flow: e.flow@,
        event: e.event@,
    }
}

/// The executable traversal state.
pub struct RunSt {
    pub pos: u64,
    pub loops: Vec<u64>,
    pub mem: Vec<MemEntry>,
    pub out: Vec<EngineMsg>,
    pub hold: Option<Hold>,
    pub stopped: bool,
}

pub open spec fn st_view(st: RunSt) -> GState {
    GState {
        pos: st.pos as int,
        loops: st.loops@,
        mem: mem_seq_view(st.mem@),
        out: out_view(st.out@),
        hold: hold_opt_view(st.hold),
        stopped: st.stopped,
    }
}

/// Copy a vector of plain values.
fn dup_vec<T: Copy>(v: &Vec<T>) -> (r: Vec<T>)
    ensures
        r@ == v@,
{
    let mut r: Vec<T> = Vec::new();
    let mut k: usize = 0;
    while k < v.len()
        invariant
            0 <= k <= v.len(),
            r@ == v@.take(k as int),
        decreases v.len() - k,
    {
        r.push(v[k]);
        proof {
            assert(v@.take(k + 1 as int) =~= v@.take(k as int).push(v@[k as int]));
        }
        k = k + 1;
    }
    proof {
        assert(v@.take(v@.len() as int) =~= v@);
    }
    r
}

/// Byte-wise equality of two names or values.
fn bytes_eq(a: &Vec<u8>, b: &Vec<u8>) -> (r: bool)
    ensures
        r == (a@ == b@),
{
    if a.len() != b.len() {
        return false;
    }
    let mut k: usize = 0;
    while k < a.len()
        invariant
            0 <= k <= a.len(),
            a@.len() == b@.len(),
            forall|i: int| 0 <= i < k ==> a@[i] == b@[i],
        decreases a.len() - k,
    {
        if a[k] != b[k] {
            return false;
        }
        k = k + 1;
    }
    proof {
        assert(a@ =~= b@);
    }
    true
}

/// Last-wins memory lookup.
fn mem_get(mem: &Vec<MemEntry>, name: &Vec<u8>) -> (r: Option<Vec<u8>>)
    ensures
        match r {
            Option::Some(v) => mem_lookup(mem_seq_view(mem@), name@) == Option::Some(v@),
            Option::None => mem_lookup(mem_seq_view(mem@), name@) is None,
        },
{
    let ghost full: Seq<(Seq<u8>, Seq<u8>)> = mem_seq_view(mem@);
    let mut k: usize = mem.len();
    proof {
        assert(full.take(full.len() as int) =~= full);
    }
    while k > 0
        invariant
            0 <= k <= mem.len(),
            full == mem_seq_view(mem@),
            full.len() == mem@.len(),
            mem_lookup(full, name@) == mem_lookup(full.take(k as int), name@),
        decreases k,
    {
        let e = &mem[k - 1];
        proof {
            assert(full.take(k as int).last() == full[k - 1 as int]);
            assert(full.take(k as int).drop_last() =~= full.take(k - 1 as int));
        }
        if bytes_eq(&e.name, name) {
            return Option::Some(dup_vec(&e.value));
        }
        k = k - 1;
    }
    proof {
        assert(full.take(0) =~= Seq::<(Seq<u8>, Seq<u8>)>::empty());
    }
    Option::None
}

/// Lexicographic comparison of loop-counter stacks, from entry `k` on.
fn lex_le_at(a: &Vec<u64>, b: &Vec<u64>, k: usize) -> (r: bool)
    requires
        k <= a.len(),
        k <= b.len(),
    ensures
        r == lex_le(a@.skip(k as int), b@.skip(k as int)),
    decreases a.len() - k,
{
    proof {
        assert(a@.skip(k as int).len() == a@.len() - k);
        assert(b@.skip(k as int).len() == b@.len() - k);
    }
    if k == a.len() {
        true
    } else if k == b.len() {
        false
    } else {
        proof {
            assert(a@.skip(k as int)[0] == a@[k as int]);
            assert(b@.skip(k as int)[0] == b@[k as int]);
            assert(a@.skip(k as int).drop_first() =~= a@.skip(k + 1 as int));
            assert(b@.skip(k as int).drop_first() =~= b@.skip(k + 1 as int));
        }
        if a[k] < b[k] {
            true
        } else if a[k] > b[k] {
            false
        } else {
            lex_le_at(a, b, k + 1)
        }
    }
}

/// Whether the current position is still inside the silently replayed
/// prefix of a resumed run.
fn is_suppressed(st: &RunSt, env: &RunEnv) -> (r: bool)
    ensures
        r == suppressed(st_view(*st), env_view(*env)),
{
    match &env.target {
        Option::None => false,
        Option::Some(t) => {
            if st.pos < t.command_index {
                true
            } else if st.pos == t.command_index {
                proof {
                    assert(st.loops@.skip(0) =~= st.loops@);
                    assert(t.loop_index@.skip(0) =~= t.loop_index@);
                }
                lex_le_at(&st.loops, &t.loop_index, 0)
            } else {
                false
            }
        },
    }
}

/// The decimal digits of a number, most significant first.
fn to_dec_bytes(n: u64) -> (r: Vec<u8>)
    ensures
        r@ == dec_bytes(n as nat),
    decreases n,
{
    if n < 10 {
        let mut r: Vec<u8> = Vec::new();
        r.push(48 + (n as u8));
        proof {
            assert(r@ =~= dec_bytes(n as nat));
        }
        r
    } else {
        let mut r = to_dec_bytes(n / 10);
        r.push(48 + ((n % 10) as u8));
        proof {
            assert(r@ =~= dec_bytes(n as nat));
        }
        r
    }
}

fn x_simple(si: &SimpleInstr, st: &mut RunSt, env: &RunEnv)
    requires
        old(st).pos < 0xffff_ffff_ffff_ffff,
    ensures
        st_view(*final(st)) == model_simple(*si, st_view(*old(st)), env_view(*env)),
{
    if st.stopped {
        return ;
    }
    let ghost st0 = st_view(*st);
    let sup = is_suppressed(st, env);
    match si {
        SimpleInstr::Say(arg, itv) => {
            if !sup {
                let content = match arg {
                    SayArg::Lit(v) => MsgContent::Text(dup_vec(v)),
                    SayArg::Var(n) => match mem_get(&st.mem, n) {
                        Option::Some(v) => MsgContent::Text(v),
                        Option::None => MsgContent::Unset {
                            var: dup_vec(n),
                            interval: *itv,
                            step: dup_vec(&env.step),
                            flow: dup_vec(&env.flow),
                        },
                    },
                };
                let position = IndexInfo { command_index: st.pos, loop_index: dup_vec(&st.loops) };
                let m = EngineMsg { content, position };
                proof {
                    assert(msg_view(m) =~= GMsg {
                        content: say_content(*arg, *itv, st0.mem, env_view(*env)),
                        cmd: st0.pos,
                        loops: st0.loops,
                    });
                }
                st.out.push(m);
                proof {
                    assert(out_view(st.out@) =~= st0.out.push(msg_view(m)));
                }
            }
            st.pos = st.pos + 1;
            proof {
                assert(st_view(*st) =~= model_simple(*si, st0, env_view(*env)));
            }
        },
        SimpleInstr::DoSet(name, value, _itv) => {
            if !sup {
                st.mem.push(MemEntry { name: dup_vec(name), value: dup_vec(value) });
                proof {
                    assert(mem_seq_view(st.mem@) =~= st0.mem.push((name@, value@)));
                }
            }
            st.pos = st.pos + 1;
            proof {
                assert(st_view(*st) =~= model_simple(*si, st0, env_view(*env)));
            }
        },
        SimpleInstr::HoldDir(_itv) => {
            if !sup {
                let h = Hold {
                    index: IndexInfo { command_index: st.pos, loop_index: dup_vec(&st.loops) },
                    content: dup_vec(&env.event),
                    step_id: dup_vec(&env.step),
                    flow_id: dup_vec(&env.flow),
                };
                proof {
                    assert(hold_view(h) =~= GHold {
                        cmd: st0.pos,
                        loops: st0.loops,
                        content: env_view(*env).event,
                        step: env_view(*env).step,
                        flow: env_view(*env).flow,
                    });
                }
                st.hold = Option::Some(h);
                st.stopped = true;
            }
            st.pos = st.pos + 1;
            proof {
                assert(st_view(*st) =~= model_simple(*si, st0, env_view(*env)));
            }
        },
        SimpleInstr::Stop(_itv) => {
            if !sup {
                st.stopped = true;
            }
            st.pos = st.pos + 1;
            proof {
                assert(st_view(*st) =~= model_simple(*si, st0, env_view(*env)));
            }
        },
    }
}

fn x_body(body: &Vec<SimpleInstr>, k0: usize, st: &mut RunSt, env: &RunEnv)
    requires
        k0 <= body.len(),
        st_view(*old(st)).pos + (body@.len() - k0) <= 0xffff_ffff_ffff_ffff,
    ensures
        st_view(*final(st)) == model_body(body@, k0 as int, st_view(*old(st)), env_view(*env)),
    decreases body.len() - k0,
{
    if k0 >= body.len() || st.stopped {
        return ;
    }
    let ghost st0 = st_view(*st);
    x_simple(&body[k0], st, env);
    proof {
        lemma_simple_frame(body@[k0 as int], st0, env_view(*env));
    }
    x_body(body, k0 + 1, st, env);
}

fn x_iters(fe: &ForeachInstr, j0: usize, st: &mut RunSt, env: &RunEnv)
    requires
        j0 <= fe.items.len(),
        old(st).loops.len() >= 1,
        st_view(*old(st)).pos + witers(fe.items@.len() - j0, fe.body@.len() as int)
            <= 0xffff_ffff_ffff_ffff,
    ensures
        st_view(*final(st)) == model_iters(*fe, j0 as int, st_view(*old(st)), env_view(*env)),
    decreases fe.items.len() - j0,
{
    proof {
        lemma_witers_nonneg(fe.items@.len() - j0, fe.body@.len() as int);
        lemma_witers_nonneg(fe.items@.len() - j0 - 1, fe.body@.len() as int);
    }
    if j0 >= fe.items.len() || st.stopped {
        return ;
    }
    let ghost st0 = st_view(*st);
    let _ = st.loops.pop();
    st.loops.push((j0 as u64) + 1);
    proof {
        assert(st.loops@ =~= st0.loops.update(st0.loops.len() - 1, (j0 + 1) as u64));
    }
    let ghost st1 = GState { loops: st.loops@, ..st0 };
    proof {
        assert(st_view(*st) =~= st1);
    }
    let sup = is_suppressed(st, env);
    if !sup {
        st.mem.push(MemEntry { name: dup_vec(&fe.var), value: dup_vec(&fe.items[j0]) });
        match &fe.index_var {
            Option::Some(iv) => {
                let d = to_dec_bytes(j0 as u64);
                st.mem.push(MemEntry { name: dup_vec(iv), value: d });
            },
            Option::None => {},
        }
        proof {
            let ghost gfe = *fe;
            let m1 = st1.mem.push((gfe.var@, gfe.items@[j0 as int]@));
            match gfe.index_var {
                Option::Some(iv) => {
                    assert(mem_seq_view(st.mem@) =~= m1.push((iv@, dec_bytes(j0 as nat))));
                },
                Option::None => {
                    assert(mem_seq_view(st.mem@) =~= m1);
                },
            }
        }
    }
    let ghost bound = st_view(*st);
    x_body(&fe.body, 0, st, env);
    proof {
        lemma_body_frame(fe.body@, 0, bound, env_view(*env));
    }
    x_iters(fe, j0 + 1, st, env);
}

fn x_instr(it: &Instr, st: &mut RunSt, env: &RunEnv)
    requires
        st_view(*old(st)).pos + weight_instr(*it) <= 0xffff_ffff_ffff_ffff,
    ensures
        st_view(*final(st)) == model_instr(*it, st_view(*old(st)), env_view(*env)),
{
    if st.stopped {
        return ;
    }
    let ghost st0 = st_view(*st);
    match it {
        Instr::Simple(si) => {
            x_simple(si, st, env);
        },
        Instr::Foreach(fe) => {
            proof {
                lemma_witers_nonneg(fe.items@.len() as int, fe.body@.len() as int);
            }
            st.pos = st.pos + 1;
            st.loops.push(0);
            let ghost st1 = st_view(*st);
            proof {
                assert(st1 =~= GState { pos: st0.pos + 1, loops: st0.loops.push(0), ..st0 });
            }
            x_iters(fe, 0, st, env);
            proof {
                lemma_iters_frame(*fe, 0, st1, env_view(*env));
            }
            let _ = st.loops.pop();
            proof {
                assert(st_view(*st) =~= model_instr(*it, st0, env_view(*env)));
            }
        },
    }
}

fn x_list(instrs: &Vec<Instr>, k0: usize, st: &mut RunSt, env: &RunEnv)
    requires
        k0 <= instrs.len(),
        st_view(*old(st)).pos + weight_list(instrs@, k0 as int) <= 0xffff_ffff_ffff_ffff,
    ensures
        st_view(*final(st)) == model_list(instrs@, k0 as int, st_view(*old(st)), env_view(*env)),
    decreases instrs.len() - k0,
{
    proof {
        lemma_weight_list_nonneg(instrs@, k0 as int);
        lemma_weight_list_nonneg(instrs@, k0 + 1 as int);
        if (k0 as int) < instrs@.len() {
            match instrs@[k0 as int] {
                Instr::Simple(_) => {},
                Instr::Foreach(fe) => {
                    lemma_witers_nonneg(fe.items@.len() as int, fe.body@.len() as int);
                },
            }
        }
    }
    if k0 >= instrs.len() || st.stopped {
        return ;
    }
    let ghost st0 = st_view(*st);
    x_instr(&instrs[k0], st, env);
    proof {
        lemma_instr_frame(instrs@[k0 as int], st0, env_view(*env));
    }
    x_list(instrs, k0 + 1, st, env);
}

/// Whether an instruction block is the step of the given name.
pub open spec fn step_named(ins: Instruction, name: Seq<u8>) -> bool {
    match ins.instruction_type {
        InstructionType::NormalStep(n) => n@ == name,
        InstructionType::StartFlow => false,
    }
}

/// The index of the first block that is the step of the given name.
pub open spec fn find_step(s: Seq<Instruction>, name: Seq<u8>, k: int) -> Option<int>
    decreases s.len() - k,
{
    if k < 0 || k >= s.len() {
        Option::None
    } else if step_named(s[k], name) {
        Option::Some(k)
    } else {
        find_step(s, name, k + 1)
    }
}

/// The run inputs derived from a context and an event: the hold being
/// consumed (if any) becomes the resumption target.
pub open spec fn run_env_of(ctx: Context, event: Event) -> GEnv {
    GEnv {
        target: match ctx.hold {
            Option::Some(h) => Option::Some(idx_view(h.index)),
            Option::None => Option::None,
        },
        step: ctx.step@,
        flow: ctx.flow@,
        event: event.payload@,
    }
}

/// Execute one step of a flow against a context and an event.
///
/// Returns the messages emitted in traversal order together with the updated
/// context: its memory is the run's final memory, its hold is the suspension
/// the run recorded (the consumed hold is cleared), and everything else is
/// unchanged.  Fails exactly when the flow has no step of the given name.
#[verifier::loop_isolation(false)]
pub fn execute(flow: &Flow, step_name: &Vec<u8>, ctx: Context, event: &Event) -> (r: Result<
    (Vec<EngineMsg>, Context),
    EngineError,
>)
    requires
        flow_weight_ok(*flow),
    ensures
        ({
            let found = find_step(flow.flow_instructions@, step_name@, 0);
            match r {
                Result::Ok(p) => {
                    let fin = model_list(
                        flow.flow_instructions@[found->0].actions@,
                        0,
                        init_state(mem_seq_view(ctx.memory@)),
                        run_env_of(ctx, *event),
                    );
                    &&& found is Some
                    &&& out_view(p.0@) == fin.out
                    &&& mem_seq_view(p.1.memory@) == fin.mem
                    &&& hold_opt_view(p.1.hold) == fin.hold
                    &&& p.1.step == ctx.step
                    &&& p.1.flow == ctx.flow
                    &&& p.1.metadata == ctx.metadata
                    &&& p.1.api_info == ctx.api_info
                },
                Result::Err(e) => found is None && e == EngineError::StepNotFound,
            }
        }),
{
    let ghost gctx = ctx;
    let ghost gevent = *event;
    let Context { memory, metadata, api_info, hold, step, flow: flow_name } = ctx;
    let target: Option<IndexInfo> = match hold {
        Option::Some(h) => {
            proof {
                assert(gctx.hold == Option::Some(h));
            }
            Option::Some(h.index)
        },
        Option::None => Option::None,
    };
    let env = RunEnv {
        target,
        step: dup_vec(&step),
        flow: dup_vec(&flow_name),
        event: dup_vec(&event.payload),
    };
    proof {
        match gctx.hold {
            Option::Some(h) => {
                assert(env.target == Option::Some(h.index));
                assert(env_view(env).target == Option::Some(idx_view(h.index)));
            },
            Option::None => {
                assert(env_view(env).target is None);
            },
        }
        assert(env_view(env) =~= run_env_of(gctx, gevent));
    }
    let s = &flow.flow_instructions;
    let mut k: usize = 0;
    while k < s.len()
        invariant
            0 <= k <= s.len(),
            find_step(s@, step_name@, 0) == find_step(s@, step_name@, k as int),
            env_view(env) == run_env_of(gctx, gevent),
            memory == gctx.memory,
            step == gctx.step,
            flow_name == gctx.flow,
            metadata == gctx.metadata,
            api_info == gctx.api_info,
            s == &flow.flow_instructions,
            flow_weight_ok(*flow),
        decreases s.len() - k,
    {
        let ins = &s[k];
        let matched: bool = match &ins.instruction_type {
            InstructionType::NormalStep(n) => bytes_eq(n, step_name),
            InstructionType::StartFlow => false,
        };
        if matched {
            proof {
                assert(find_step(s@, step_name@, 0) == Option::Some(k as int));
            }
            let mut st = RunSt {
                pos: 0,
                loops: Vec::new(),
                mem: memory,
                out: Vec::new(),
                hold: Option::None,
                stopped: false,
            };
            proof {
                assert(st.loops@ =~= Seq::<u64>::empty());
                assert(out_view(st.out@) =~= Seq::<GMsg>::empty());
                assert(st_view(st) =~= init_state(mem_seq_view(gctx.memory@)));
                assert(flow_weight_ok(*flow));
                assert(0 <= (k as int) && (k as int) < flow.flow_instructions@.len());
                assert(weight_list(flow.flow_instructions@[k as int].actions@, 0)
                    < 0xffff_ffff_ffff_ffff);
                assert(ins.actions@ == flow.flow_instructions@[k as int].actions@);
            }
            x_list(&ins.actions, 0, &mut st, &env);
            let RunSt { pos: _, loops: _, mem: mem2, out: out2, hold: hold2, stopped: _ } = st;
            let ctx2 = Context {
                memory: mem2,
                metadata,
                api_info,
                hold: hold2,
                step,
                flow: flow_name,
            };
            return Result::Ok((out2, ctx2));
        }
        k = k + 1;
    }
    Result::Err(EngineError::StepNotFound)
}

} // verus!
