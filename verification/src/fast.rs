//! The expansion plan of the fast macro.
//!
//! Every item that is marked `const` or is a single literal counts as
//! constant.  Maximal runs of adjacent constant items are merged into one
//! compile-time constant; every other item keeps a binding of its own, so
//! that it is evaluated exactly once.  A lone merged constant expands to a
//! named constant, a lone non-constant item to the expression itself, and
//! no items at all to the empty string literal.

use vstd::prelude::*;

use crate::parse::{item_views, FastConcatParser, Item, ItemV};
use crate::segs::str_views;
use crate::strbuild::push_str;
use crate::toks::{is_lit_tok, span_is_lit, Tok};

verus! {

/// Whether an item merges as a constant: marked `const`, or a single
/// literal token.
pub open spec fn const_of(toks: Seq<Tok>, it: ItemV) -> bool {
    it.is_const || span_is_lit(toks, it.lo, it.hi)
}

/// The constant classification of every item.
pub open spec fn const_flags(toks: Seq<Tok>, items: Seq<ItemV>) -> Seq<bool> {
    Seq::new(items.len(), |k: int| const_of(toks, items[k]))
}

/// One generated piece of the fast macro's buffer expansion: the `k`-th
/// segment is bound to the variable named by [`crate::names::fast_var_ident`].
#[derive(Clone, Debug)]
pub enum FastSeg {
    /// A maximal run of adjacent constant items, merged into one constant.
    Const { parts: Vec<usize> },
    /// The item at position `index`, evaluated exactly once.
    Expr { index: usize },
}

/// The mathematical value of a [`FastSeg`].
pub enum FastSegV {
    Const { parts: Seq<int> },
    Expr { index: int },
}

impl View for FastSeg {
    type V = FastSegV;

    open spec fn view(&self) -> FastSegV {
        match self {
            FastSeg::Const { parts } => FastSegV::Const { parts: idx_views(parts@) },
            FastSeg::Expr { index } => FastSegV::Expr { index: *index as int },
        }
    }
}

/// The views of a sequence of positions.
pub open spec fn idx_views(idxs: Seq<usize>) -> Seq<int> {
    idxs.map_values(|k: usize| k as int)
}

/// The views of a sequence of fast segments.
pub open spec fn fast_seg_views(segs: Seq<FastSeg>) -> Seq<FastSegV> {
    segs.map_values(|s: FastSeg| s@)
}

/// The segments a constant run turns into: one merged constant when the
/// run is nonempty, nothing otherwise.
pub open spec fn flush_run(run: Seq<int>) -> Seq<FastSegV> {
    if run.len() > 0 {
        seq![FastSegV::Const { parts: run }]
    } else {
        Seq::empty()
    }
}

/// The grouped segments of the items from position `i` on, with `run` the
/// constant run accumulated so far; `cs` is the items' constant
/// classification.
pub open spec fn group_from(cs: Seq<bool>, i: int, run: Seq<int>) -> Seq<FastSegV>
    decreases cs.len() - i,
{
    if i >= cs.len() {
        flush_run(run)
    } else if cs[i] {
        group_from(cs, i + 1, run.push(i))
    } else {
        flush_run(run) + seq![FastSegV::Expr { index: i }] + group_from(cs, i + 1, Seq::empty())
    }
}

/// The segments of the fast macro's buffer expansion.
pub open spec fn fast_segments(toks: Seq<Tok>, items: Seq<ItemV>) -> Seq<FastSegV> {
    group_from(const_flags(toks, items), 0, Seq::empty())
}

/// The expansion chosen by the fast macro.
#[derive(Clone, Debug)]
pub enum FastPlan {
    /// No items: expand to the empty string literal.
    Empty,
    /// Everything merged into one constant: expand to a named constant
    /// holding it.
    SingleConst { parts: Vec<usize> },
    /// A single non-constant item: expand to the expression itself.
    SingleExpr { index: usize },
    /// Otherwise: one binding per segment — constant bindings for merged
    /// runs — a single buffer allocation of the exact total length, and
    /// one push per binding.
    Buffer { segments: Vec<FastSeg> },
}

/// The mathematical value of a [`FastPlan`].
pub enum FastPlanV {
    Empty,
    SingleConst { parts: Seq<int> },
    SingleExpr { index: int },
    Buffer { segments: Seq<FastSegV> },
}

impl View for FastPlan {
    type V = FastPlanV;

    open spec fn view(&self) -> FastPlanV {
        match self {
            FastPlan::Empty => FastPlanV::Empty,
            FastPlan::SingleConst { parts } => FastPlanV::SingleConst { parts: idx_views(parts@) },
            FastPlan::SingleExpr { index } => FastPlanV::SingleExpr { index: *index as int },
            FastPlan::Buffer { segments } => FastPlanV::Buffer {
                segments: fast_seg_views(segments@),
            },
        }
    }
}

/// The plan of the fast macro on parsed items.
pub open spec fn fast_plan_spec(toks: Seq<Tok>, items: Seq<ItemV>) -> FastPlanV {
    if items.len() == 0 {
        FastPlanV::Empty
    } else {
        let g = fast_segments(toks, items);
        if g.len() == 1 {
            match g[0] {
                FastSegV::Const { parts } => FastPlanV::SingleConst { parts },
                FastSegV::Expr { index } => FastPlanV::SingleExpr { index },
            }
        } else {
            FastPlanV::Buffer { segments: g }
        }
    }
}

/// Whether a token is a literal of any kind.
fn is_lit(t: &Tok) -> (b: bool)
    ensures
        b == is_lit_tok(*t),
{
    matches!(t, Tok::StrLit { .. } | Tok::OtherLit)
}

/// The executable constant classification of one item.
fn item_is_const(toks: &Vec<Tok>, it: &Item) -> (b: bool)
    ensures
        b == const_of(toks@, it@),
{
    it.is_const || (it.hi > it.lo && it.hi - it.lo == 1 && it.lo < toks.len() && is_lit(
        &toks[it.lo],
    ))
}

/// The fast macro's expansion plan: classifies each item, merges maximal
/// runs of adjacent constants, gives every other item its own
/// single-evaluation binding, and collapses the degenerate shapes — no
/// items, one merged constant, one lone expression — into direct
/// expansions.
pub fn fast_concat(toks: &Vec<Tok>, p: &FastConcatParser) -> (r: FastPlan)
    ensures
        r@ == fast_plan_spec(toks@, item_views(p.items@)),
{
    let ghost iv = item_views(p.items@);
    let ghost cs = const_flags(toks@, iv);
    let n = p.items.len();
    if n == 0 {
        return FastPlan::Empty;
    }
    let mut run: Vec<usize> = Vec::new();
    let mut segments: Vec<FastSeg> = Vec::new();
    let mut i: usize = 0;
    proof {
        assert(fast_seg_views(segments@) =~= Seq::<FastSegV>::empty());
        assert(idx_views(run@) =~= Seq::<int>::empty());
        assert(fast_seg_views(segments@) + group_from(cs, 0, idx_views(run@)) =~= group_from(
            cs,
            0,
            Seq::empty(),
        ));
    }
    while i < n
        invariant
            n == p.items@.len(),
            iv == item_views(p.items@),
            cs == const_flags(toks@, iv),
            0 <= i <= n,
            fast_seg_views(segments@) + group_from(cs, i as int, idx_views(run@)) == group_from(
                cs,
                0,
                Seq::empty(),
            ),
        decreases n - i,
    {
        proof {
            assert(iv[i as int] == p.items@[i as int]@);
            assert(cs[i as int] == const_of(toks@, iv[i as int]));
        }
        let ghost r0 = idx_views(run@);
        let ghost s0 = segments@;
        if item_is_const(toks, &p.items[i]) {
            run.push(i);
            proof {
                assert(idx_views(run@) =~= r0.push(i as int));
            }
        } else {
            if run.len() > 0 {
                segments.push(FastSeg::Const { parts: run });
                run = Vec::new();
                proof {
                    assert(idx_views(run@) =~= Seq::<int>::empty());
                    assert(fast_seg_views(segments@) =~= fast_seg_views(s0) + flush_run(r0));
                }
            } else {
                proof {
                    assert(r0 =~= Seq::<int>::empty());
                    assert(fast_seg_views(segments@) =~= fast_seg_views(s0) + flush_run(r0));
                }
            }
            let ghost s1 = segments@;
            segments.push(FastSeg::Expr { index: i });
            proof {
                assert(fast_seg_views(segments@) =~= fast_seg_views(s1) + seq![
                    FastSegV::Expr { index: i as int },
                ]);
                assert(group_from(cs, i as int, r0) == flush_run(r0) + seq![
                    FastSegV::Expr { index: i as int },
                ] + group_from(cs, i + 1, Seq::empty()));
                assert(fast_seg_views(segments@) + group_from(cs, i + 1, Seq::empty())
                    =~= fast_seg_views(s0) + group_from(cs, i as int, r0));
            }
        }
        i += 1;
    }
    let ghost r_end = idx_views(run@);
    if run.len() > 0 {
        let ghost s0 = segments@;
        segments.push(FastSeg::Const { parts: run });
        proof {
            assert(fast_seg_views(segments@) =~= fast_seg_views(s0) + flush_run(r_end));
        }
    } else {
        proof {
            assert(r_end =~= Seq::<int>::empty());
            assert(fast_seg_views(segments@) + flush_run(r_end) =~= fast_seg_views(segments@));
        }
    }
    proof {
        assert(fast_seg_views(segments@) == fast_segments(toks@, iv));
    }
    if segments.len() == 1 {
        let seg = match segments.pop() {
            Some(s) => s,
            None => {
                return FastPlan::Empty;
            },
        };
        proof {
            assert(seg@ == fast_segments(toks@, iv)[0]);
        }
        match seg {
            FastSeg::Const { parts } => FastPlan::SingleConst { parts },
            FastSeg::Expr { index } => FastPlan::SingleExpr { index },
        }
    } else {
        FastPlan::Buffer { segments }
    }
}

/// The item positions of the segments, in order: constant runs contribute
/// their parts, expression segments their own position.
pub open spec fn flat_fast(segs: Seq<FastSegV>) -> Seq<int>
    decreases segs.len(),
{
    if segs.len() == 0 {
        Seq::empty()
    } else {
        (match segs[0] {
            FastSegV::Const { parts } => parts,
            FastSegV::Expr { index } => seq![index],
        }) + flat_fast(segs.drop_first())
    }
}

/// The positions `i`, `i + 1`, ..., `n - 1`, in order.
pub open spec fn positions_from(n: int, i: int) -> Seq<int>
    decreases n - i,
{
    if i >= n {
        Seq::empty()
    } else {
        seq![i] + positions_from(n, i + 1)
    }
}

proof fn lemma_flat_fast_add(x: Seq<FastSegV>, y: Seq<FastSegV>)
    ensures
        flat_fast(x + y) == flat_fast(x) + flat_fast(y),
    decreases x.len(),
{
    if x.len() == 0 {
        assert(x + y =~= y);
        assert(flat_fast(x) + flat_fast(y) =~= flat_fast(y));
    } else {
        assert((x + y).drop_first() =~= x.drop_first() + y);
        lemma_flat_fast_add(x.drop_first(), y);
        let a = (match x[0] {
            FastSegV::Const { parts } => parts,
            FastSegV::Expr { index } => seq![index],
        });
        let b = flat_fast(x.drop_first());
        let c = flat_fast(y);
        assert(a + (b + c) =~= (a + b) + c);
    }
}

proof fn lemma_flat_fast_flush(run: Seq<int>)
    ensures
        flat_fast(flush_run(run)) == run,
{
    reveal_with_fuel(flat_fast, 2);
    if run.len() > 0 {
        assert(flush_run(run).drop_first() =~= Seq::<FastSegV>::empty());
        assert(flat_fast(flush_run(run)) =~= run);
    }
}

proof fn lemma_group_from_flat(cs: Seq<bool>, i: int, run: Seq<int>)
    requires
        0 <= i <= cs.len(),
    ensures
        flat_fast(group_from(cs, i, run)) == run + positions_from(cs.len() as int, i),
    decreases cs.len() - i,
{
    if i >= cs.len() {
        lemma_flat_fast_flush(run);
        assert(run + positions_from(cs.len() as int, i) =~= run);
    } else if cs[i] {
        lemma_group_from_flat(cs, i + 1, run.push(i));
        assert(run.push(i) + positions_from(cs.len() as int, i + 1) =~= run + (seq![i]
            + positions_from(cs.len() as int, i + 1)));
    } else {
        lemma_group_from_flat(cs, i + 1, Seq::empty());
        let e = seq![FastSegV::Expr { index: i }];
        let rest = group_from(cs, i + 1, Seq::empty());
        lemma_flat_fast_add(flush_run(run) + e, rest);
        lemma_flat_fast_add(flush_run(run), e);
        lemma_flat_fast_flush(run);
        reveal_with_fuel(flat_fast, 2);
        assert(e.drop_first() =~= Seq::<FastSegV>::empty());
        assert(flat_fast(e) =~= seq![i]);
        assert(Seq::empty() + positions_from(cs.len() as int, i + 1) =~= positions_from(
            cs.len() as int,
            i + 1,
        ));
        assert((run + seq![i]) + positions_from(cs.len() as int, i + 1) =~= run + (seq![i]
            + positions_from(cs.len() as int, i + 1)));
    }
}

/// Every item appears in the grouped segments exactly once, in the order
/// it was written: each expression is evaluated once, and the merged
/// constants keep the written order.
pub proof fn lemma_fast_items_in_order(toks: Seq<Tok>, items: Seq<ItemV>)
    ensures
        flat_fast(fast_segments(toks, items)) == positions_from(items.len() as int, 0),
{
    let cs = const_flags(toks, items);
    lemma_group_from_flat(cs, 0, Seq::empty());
    assert(Seq::empty() + positions_from(cs.len() as int, 0) =~= positions_from(
        cs.len() as int,
        0,
    ));
}

/// One segment respects the classification: a constant run is nonempty
/// and holds only constant items, an expression segment holds one
/// non-constant item.
pub open spec fn fast_seg_ok(s: FastSegV, cs: Seq<bool>) -> bool {
    match s {
        FastSegV::Const { parts } => parts.len() > 0 && (forall|j: int|
            0 <= j < parts.len() ==> 0 <= #[trigger] parts[j] < cs.len() && cs[parts[j]]),
        FastSegV::Expr { index } => 0 <= index < cs.len() && !cs[index],
    }
}

/// No two adjacent segments are both merged constants.
pub open spec fn no_adjacent_consts(segs: Seq<FastSegV>) -> bool {
    forall|k: int|
        0 <= k < segs.len() - 1 ==> !((#[trigger] segs[k]) is Const && segs[k + 1] is Const)
}

proof fn lemma_group_from_shape(cs: Seq<bool>, i: int, run: Seq<int>)
    requires
        0 <= i <= cs.len(),
        forall|j: int| 0 <= j < run.len() ==> 0 <= #[trigger] run[j] < cs.len() && cs[run[j]],
    ensures
        no_adjacent_consts(group_from(cs, i, run)),
        forall|k: int|
            0 <= k < group_from(cs, i, run).len() ==> fast_seg_ok(
                #[trigger] group_from(cs, i, run)[k],
                cs,
            ),
    decreases cs.len() - i,
{
    if i >= cs.len() {
    } else if cs[i] {
        assert(forall|j: int|
            0 <= j < run.push(i).len() ==> 0 <= #[trigger] run.push(i)[j] < cs.len() && cs[run.push(
                i,
            )[j]]);
        lemma_group_from_shape(cs, i + 1, run.push(i));
    } else {
        lemma_group_from_shape(cs, i + 1, Seq::empty());
        let f = flush_run(run);
        let e = seq![FastSegV::Expr { index: i }];
        let rest = group_from(cs, i + 1, Seq::empty());
        let whole = f + e + rest;
        assert forall|k: int| 0 <= k < whole.len() - 1 implies !((#[trigger] whole[k]) is Const
            && whole[k + 1] is Const) by {
            if k >= f.len() + 1 {
                assert(whole[k] == rest[k - f.len() - 1]);
                assert(whole[k + 1] == rest[k - f.len()]);
            } else if k == f.len() {
                assert(whole[k] == FastSegV::Expr { index: i });
            } else {
                assert(whole[k + 1] == FastSegV::Expr { index: i });
            }
        }
        assert forall|k: int| 0 <= k < whole.len() implies fast_seg_ok(
            #[trigger] whole[k],
            cs,
        ) by {
            if k >= f.len() + 1 {
                assert(whole[k] == rest[k - f.len() - 1]);
            } else if k == f.len() {
                assert(whole[k] == FastSegV::Expr { index: i });
            } else {
                assert(whole[k] == f[k]);
            }
        }
    }
}

/// The grouped runs are maximal and faithful: no two adjacent merged
/// constants, every merged constant nonempty and made of constant items
/// only, every expression segment a single non-constant item.
pub proof fn lemma_fast_shape(toks: Seq<Tok>, items: Seq<ItemV>)
    ensures
        no_adjacent_consts(fast_segments(toks, items)),
        forall|k: int|
            0 <= k < fast_segments(toks, items).len() ==> fast_seg_ok(
                #[trigger] fast_segments(toks, items)[k],
                const_flags(toks, items),
            ),
{
    lemma_group_from_shape(const_flags(toks, items), 0, Seq::empty());
}

/// The concatenation of the values at the given positions, under an
/// assignment `env` of a string value to every item position.
pub open spec fn cat_at(env: Seq<Seq<char>>, idxs: Seq<int>) -> Seq<char>
    decreases idxs.len(),
{
    if idxs.len() == 0 {
        Seq::empty()
    } else {
        env[idxs[0]] + cat_at(env, idxs.drop_first())
    }
}

proof fn lemma_cat_at_add(env: Seq<Seq<char>>, x: Seq<int>, y: Seq<int>)
    ensures
        cat_at(env, x + y) == cat_at(env, x) + cat_at(env, y),
    decreases x.len(),
{
    if x.len() == 0 {
        assert(x + y =~= y);
        assert(cat_at(env, x) + cat_at(env, y) =~= cat_at(env, y));
    } else {
        assert((x + y).drop_first() =~= x.drop_first() + y);
        lemma_cat_at_add(env, x.drop_first(), y);
        let a = env[x[0]];
        let b = cat_at(env, x.drop_first());
        let c = cat_at(env, y);
        assert(a + (b + c) =~= (a + b) + c);
    }
}

/// The value of one fast segment under `env`.
pub open spec fn eval_fast_seg(s: FastSegV, env: Seq<Seq<char>>) -> Seq<char> {
    match s {
        FastSegV::Const { parts } => cat_at(env, parts),
        FastSegV::Expr { index } => env[index],
    }
}

/// The concatenated value of the fast segments under `env`.
pub open spec fn eval_fast_segs(segs: Seq<FastSegV>, env: Seq<Seq<char>>) -> Seq<char>
    decreases segs.len(),
{
    if segs.len() == 0 {
        Seq::empty()
    } else {
        eval_fast_seg(segs[0], env) + eval_fast_segs(segs.drop_first(), env)
    }
}

proof fn lemma_eval_fast_is_cat_flat(segs: Seq<FastSegV>, env: Seq<Seq<char>>)
    ensures
        eval_fast_segs(segs, env) == cat_at(env, flat_fast(segs)),
    decreases segs.len(),
{
    if segs.len() == 0 {
    } else {
        lemma_eval_fast_is_cat_flat(segs.drop_first(), env);
        let a = (match segs[0] {
            FastSegV::Const { parts } => parts,
            FastSegV::Expr { index } => seq![index],
        });
        lemma_cat_at_add(env, a, flat_fast(segs.drop_first()));
        if segs[0] is Expr {
            reveal_with_fuel(cat_at, 2);
            assert(a.drop_first() =~= Seq::<int>::empty());
            assert(cat_at(env, a) =~= env[segs[0]->index]);
        }
    }
}

/// Grouping preserves the value: under any assignment of a value to every
/// item position, the segments concatenate to exactly the concatenation
/// of all the items' values, in the order they were written.
pub proof fn lemma_fast_preserves_value(toks: Seq<Tok>, items: Seq<ItemV>, env: Seq<Seq<char>>)
    ensures
        eval_fast_segs(fast_segments(toks, items), env) == cat_at(
            env,
            positions_from(items.len() as int, 0),
        ),
{
    lemma_eval_fast_is_cat_flat(fast_segments(toks, items), env);
    lemma_fast_items_in_order(toks, items);
}

/// The sum of the segments' value lengths under `env`: the capacity the
/// generated buffer is allocated with.
pub open spec fn fast_len_sum(segs: Seq<FastSegV>, env: Seq<Seq<char>>) -> int
    decreases segs.len(),
{
    if segs.len() == 0 {
        0int
    } else {
        eval_fast_seg(segs[0], env).len() + fast_len_sum(segs.drop_first(), env)
    }
}

/// The precomputed capacity is exact: the concatenation of the segments
/// is precisely as long as the sum of their lengths.
pub proof fn lemma_fast_eval_len_is_sum(segs: Seq<FastSegV>, env: Seq<Seq<char>>)
    ensures
        eval_fast_segs(segs, env).len() == fast_len_sum(segs, env),
    decreases segs.len(),
{
    if segs.len() > 0 {
        lemma_fast_eval_len_is_sum(segs.drop_first(), env);
    }
}

/// Whichever expansion the plan chooses, its value under `env` is the
/// concatenation of all the items' values, in the order they were
/// written.
pub proof fn lemma_fast_plan_value(toks: Seq<Tok>, items: Seq<ItemV>, env: Seq<Seq<char>>)
    ensures
        fast_value(fast_plan_spec(toks, items), env) == cat_at(
            env,
            positions_from(items.len() as int, 0),
        ),
{
    if items.len() == 0 {
    } else {
        let g = fast_segments(toks, items);
        lemma_fast_preserves_value(toks, items, env);
        if g.len() == 1 {
            reveal_with_fuel(eval_fast_segs, 2);
            assert(g.drop_first() =~= Seq::<FastSegV>::empty());
            assert(eval_fast_segs(g, env) =~= eval_fast_seg(g[0], env));
        }
    }
}

/// Whether every position in the list is assigned a value by an
/// environment of `env_len` values.
pub open spec fn idxs_wf(idxs: Seq<int>, env_len: int) -> bool {
    forall|j: int| 0 <= j < idxs.len() ==> 0 <= #[trigger] idxs[j] < env_len
}

/// Whether `env` assigns a value to every position a plan mentions.
pub open spec fn fast_plan_wf(plan: FastPlanV, env_len: int) -> bool {
    match plan {
        FastPlanV::Empty => true,
        FastPlanV::SingleConst { parts } => idxs_wf(parts, env_len),
        FastPlanV::SingleExpr { index } => 0 <= index < env_len,
        FastPlanV::Buffer { segments } => forall|k: int|
            0 <= k < segments.len() ==> fast_seg_env_wf(#[trigger] segments[k], env_len),
    }
}

/// Whether `env` assigns a value to every position one segment mentions.
pub open spec fn fast_seg_env_wf(s: FastSegV, env_len: int) -> bool {
    match s {
        FastSegV::Const { parts } => idxs_wf(parts, env_len),
        FastSegV::Expr { index } => 0 <= index < env_len,
    }
}

/// What the generated code evaluates to under `env`.
pub open spec fn fast_value(plan: FastPlanV, env: Seq<Seq<char>>) -> Seq<char> {
    match plan {
        FastPlanV::Empty => Seq::empty(),
        FastPlanV::SingleConst { parts } => cat_at(env, parts),
        FastPlanV::SingleExpr { index } => env[index],
        FastPlanV::Buffer { segments } => eval_fast_segs(segments, env),
    }
}

/// Appends the values at the given positions, in order.
fn push_parts(buf: &mut String, parts: &Vec<usize>, env: &Vec<String>)
    requires
        idxs_wf(idx_views(parts@), env@.len() as int),
    ensures
        final(buf)@ == old(buf)@ + cat_at(str_views(env@), idx_views(parts@)),
{
    let ghost pv = idx_views(parts@);
    let ghost ev = str_views(env@);
    let n = parts.len();
    let mut j: usize = 0;
    proof {
        assert(pv.skip(0) =~= pv);
    }
    while j < n
        invariant
            n == parts@.len(),
            pv == idx_views(parts@),
            ev == str_views(env@),
            idxs_wf(idx_views(parts@), env@.len() as int),
            0 <= j <= n,
            buf@ + cat_at(ev, pv.skip(j as int)) == old(buf)@ + cat_at(ev, pv),
        decreases n - j,
    {
        let ghost b0 = buf@;
        proof {
            assert(idx_views(parts@)[j as int] == parts@[j as int] as int);
            assert(0 <= idx_views(parts@)[j as int] < env@.len() as int);
            assert(pv.skip(j as int)[0] == pv[j as int]);
            assert(pv.skip(j as int).drop_first() =~= pv.skip(j as int + 1));
            assert(ev[parts@[j as int] as int] == env@[parts@[j as int] as int]@);
        }
        push_str(buf, env[parts[j]].as_str());
        proof {
            let a = ev[pv[j as int]];
            let b = cat_at(ev, pv.skip(j as int + 1));
            assert(buf@ == b0 + a);
            assert((b0 + a) + b =~= b0 + (a + b));
        }
        j += 1;
    }
    proof {
        assert(pv.skip(n as int) =~= Seq::<int>::empty());
        assert(buf@ + cat_at(ev, pv.skip(n as int)) =~= buf@);
    }
}

/// Concatenates what a fast plan's generated code would produce, under
/// the assignment `env` of a value to every item position.
pub fn eval_fast_plan(plan: &FastPlan, env: &Vec<String>) -> (r: String)
    requires
        fast_plan_wf(plan@, env@.len() as int),
    ensures
        r@ == fast_value(plan@, str_views(env@)),
{
    let ghost ev = str_views(env@);
    match plan {
        FastPlan::Empty => String::new(),
        FastPlan::SingleConst { parts } => {
            let mut buf = String::new();
            proof {
                assert(plan@ == FastPlanV::SingleConst { parts: idx_views(parts@) });
                assert(idxs_wf(idx_views(parts@), env@.len() as int));
            }
            push_parts(&mut buf, parts, env);
            buf
        },
        FastPlan::SingleExpr { index } => {
            proof {
                assert(ev[*index as int] == env@[*index as int]@);
            }
            env[*index].clone()
        },
        FastPlan::Buffer { segments } => {
            let ghost sv = fast_seg_views(segments@);
            let mut buf = String::new();
            let n = segments.len();
            let mut i: usize = 0;
            proof {
                assert(plan@ == FastPlanV::Buffer { segments: sv });
                assert forall|k: int| 0 <= k < sv.len() implies fast_seg_env_wf(
                    #[trigger] sv[k],
                    env@.len() as int,
                ) by {
                    assert(sv[k] == plan@->segments[k]);
                }
                assert(sv.skip(0) =~= sv);
                assert(buf@ + eval_fast_segs(sv, ev) =~= eval_fast_segs(sv, ev));
            }
            while i < n
                invariant
                    n == segments@.len(),
                    sv == fast_seg_views(segments@),
                    ev == str_views(env@),
                    forall|k: int|
                        0 <= k < sv.len() ==> fast_seg_env_wf(#[trigger] sv[k], env@.len() as int),
                    0 <= i <= n,
                    buf@ + eval_fast_segs(sv.skip(i as int), ev) == eval_fast_segs(sv, ev),
                decreases n - i,
            {
                let ghost b0 = buf@;
                proof {
                    assert(sv[i as int] == segments@[i as int]@);
                    assert(sv.skip(i as int)[0] == sv[i as int]);
                    assert(sv.skip(i as int).drop_first() =~= sv.skip(i as int + 1));
                }
                match &segments[i] {
                    FastSeg::Const { parts } => {
                        proof {
                            assert(fast_seg_env_wf(sv[i as int], env@.len() as int));
                            assert(sv[i as int] == FastSegV::Const { parts: idx_views(parts@) });
                            assert(idxs_wf(idx_views(parts@), env@.len() as int));
                        }
                        push_parts(&mut buf, parts, env);
                    },
                    FastSeg::Expr { index } => {
                        proof {
                            assert(ev[*index as int] == env@[*index as int]@);
                        }
                        push_str(&mut buf, env[*index].as_str());
                    },
                }
                proof {
                    let a = eval_fast_seg(sv[i as int], ev);
                    let b = eval_fast_segs(sv.skip(i as int + 1), ev);
                    assert(buf@ == b0 + a);
                    assert((b0 + a) + b =~= b0 + (a + b));
                }
                i += 1;
            }
            proof {
                assert(sv.skip(n as int) =~= Seq::<FastSegV>::empty());
                assert(buf@ + eval_fast_segs(sv.skip(n as int), ev) =~= buf@);
            }
            buf
        },
    }
}

} // verus!
