//! The expansion plan of the string macro.
//!
//! Adjacent string-literal arguments are merged into one compile-time
//! constant; every other argument keeps a binding of its own, so that it
//! is evaluated exactly once.  When no argument is left unmerged the macro
//! expands to the merged constant itself, and with no arguments at all to
//! the empty string.

use vstd::prelude::*;

use crate::parse::{arg_views, ConcatStringsParser, StrArg, StrArgV};
use crate::segs::{
    break_combined_lit_chain, eval_segments, eval_segs, flush, lemma_eval_flush,
    lemma_eval_segs_add, lemma_eval_singleton, lemma_seg_exprs_add, lemma_seg_exprs_flush,
    lemma_seg_exprs_singleton, lits_nonempty, no_adjacent_lits, seg_exprs, seg_views, segs_wf,
    str_views, SegV, StrSegment,
};
use crate::strbuild::push_str;

verus! {

/// The merged segments of the arguments from position `i` on, with `acc`
/// the literal run accumulated so far.
pub open spec fn merge_from(args: Seq<StrArgV>, i: int, acc: Seq<char>) -> Seq<SegV>
    decreases args.len() - i,
{
    if i >= args.len() {
        flush(acc)
    } else {
        match args[i] {
            StrArgV::Lit { value, .. } => merge_from(args, i + 1, acc + value),
            StrArgV::Expr { .. } => flush(acc) + seq![SegV::Expr { index: i }] + merge_from(
                args,
                i + 1,
                Seq::empty(),
            ),
        }
    }
}

/// The segments of the string macro's buffer expansion.
pub open spec fn strings_segments(args: Seq<StrArgV>) -> Seq<SegV> {
    merge_from(args, 0, Seq::empty())
}

/// Whether every argument is a string literal.
pub open spec fn all_lits(args: Seq<StrArgV>) -> bool {
    forall|k: int| 0 <= k < args.len() ==> (#[trigger] args[k]) is Lit
}

/// The concatenation of the literal arguments' values from `i` on.
pub open spec fn lit_cat_from(args: Seq<StrArgV>, i: int) -> Seq<char>
    decreases args.len() - i,
{
    if i >= args.len() {
        Seq::empty()
    } else {
        (match args[i] {
            StrArgV::Lit { value, .. } => value,
            StrArgV::Expr { .. } => Seq::empty(),
        }) + lit_cat_from(args, i + 1)
    }
}

/// The expansion chosen by the string macro.
#[derive(Clone, Debug)]
pub enum StringsPlan {
    /// No arguments: expand to the empty string — an owned string under
    /// `strict`, the empty literal otherwise.
    Empty { strict: bool },
    /// Every argument is a string literal: expand to the merged constant.
    AllLits { value: String },
    /// Otherwise: one binding per segment, a single buffer allocation of
    /// the exact total length, and one push per binding.
    Buffer { segments: Vec<StrSegment> },
}

/// The mathematical value of a [`StringsPlan`].
pub enum StringsPlanV {
    Empty { strict: bool },
    AllLits { value: Seq<char> },
    Buffer { segments: Seq<SegV> },
}

impl View for StringsPlan {
    type V = StringsPlanV;

    open spec fn view(&self) -> StringsPlanV {
        match self {
            StringsPlan::Empty { strict } => StringsPlanV::Empty { strict: *strict },
            StringsPlan::AllLits { value } => StringsPlanV::AllLits { value: value@ },
            StringsPlan::Buffer { segments } => StringsPlanV::Buffer {
                segments: seg_views(segments@),
            },
        }
    }
}

/// The plan of the string macro on parsed arguments.
pub open spec fn strings_plan_spec(args: Seq<StrArgV>, strict: bool) -> StringsPlanV {
    if args.len() == 0 {
        StringsPlanV::Empty { strict }
    } else if all_lits(args) {
        StringsPlanV::AllLits { value: lit_cat_from(args, 0) }
    } else {
        StringsPlanV::Buffer { segments: strings_segments(args) }
    }
}

/// The string macro's expansion plan: merges adjacent literal arguments,
/// gives every other argument its own single-evaluation binding, and
/// chooses the constant expansion when only literals were passed.
pub fn concat_strings(p: &ConcatStringsParser) -> (r: StringsPlan)
    ensures
        r@ == strings_plan_spec(arg_views(p.args@), p.strict),
{
    let ghost av = arg_views(p.args@);
    let n = p.args.len();
    if n == 0 {
        return StringsPlan::Empty { strict: p.strict };
    }
    let mut combined = String::new();
    let mut segments: Vec<StrSegment> = Vec::new();
    let mut only_lits = true;
    let mut i: usize = 0;
    proof {
        assert(seg_views(segments@) =~= Seq::<SegV>::empty());
        assert(seg_views(segments@) + merge_from(av, 0, combined@) =~= merge_from(
            av,
            0,
            Seq::empty(),
        ));
        assert(combined@ + lit_cat_from(av, 0) =~= lit_cat_from(av, 0));
    }
    while i < n
        invariant
            n == p.args@.len(),
            av == arg_views(p.args@),
            0 <= i <= n,
            seg_views(segments@) + merge_from(av, i as int, combined@) == strings_segments(av),
            only_lits <==> (forall|k: int| 0 <= k < i ==> (#[trigger] av[k]) is Lit),
            only_lits ==> combined@ + lit_cat_from(av, i as int) == lit_cat_from(av, 0),
            only_lits ==> segments@.len() == 0,
        decreases n - i,
    {
        proof {
            assert(av[i as int] == p.args@[i as int]@);
        }
        let ghost c0 = combined@;
        let ghost s0 = segments@;
        match &p.args[i] {
            StrArg::Lit { value, .. } => {
                push_str(&mut combined, value.as_str());
                proof {
                    assert(merge_from(av, i as int, c0) == merge_from(av, i + 1, c0 + value@));
                    if only_lits {
                        let rest = lit_cat_from(av, i + 1);
                        assert(lit_cat_from(av, i as int) == value@ + rest);
                        assert(c0 + (value@ + rest) =~= (c0 + value@) + rest);
                    }
                }
            },
            StrArg::Expr { .. } => {
                break_combined_lit_chain(&mut segments, i, &mut combined);
                only_lits = false;
                proof {
                    assert(merge_from(av, i as int, c0) == flush(c0) + seq![
                        SegV::Expr { index: i as int },
                    ] + merge_from(av, i + 1, Seq::empty()));
                    assert(seg_views(segments@) + merge_from(av, i + 1, Seq::empty()) =~= seg_views(
                        s0,
                    ) + merge_from(av, i as int, c0));
                }
            },
        }
        i += 1;
    }
    if only_lits {
        proof {
            assert(all_lits(av));
            assert(lit_cat_from(av, n as int) =~= Seq::<char>::empty());
            assert(combined@ + lit_cat_from(av, n as int) =~= combined@);
        }
        return StringsPlan::AllLits { value: combined };
    }
    proof {
        assert(merge_from(av, n as int, combined@) == flush(combined@));
    }
    if !combined.as_str().is_empty() {
        let ghost s0 = segments@;
        let ghost c = combined@;
        segments.push(StrSegment::Lit { value: combined });
        proof {
            assert(seg_views(segments@) =~= seg_views(s0) + flush(c));
        }
        return StringsPlan::Buffer { segments };
    }
    proof {
        assert(seg_views(segments@) + flush(combined@) =~= seg_views(segments@));
    }
    StringsPlan::Buffer { segments }
}

/// The value of the arguments from `i` on, under an assignment `env` of a
/// string value to every argument position: literal values and assigned
/// values, concatenated in order.
pub open spec fn args_value(args: Seq<StrArgV>, i: int, env: Seq<Seq<char>>) -> Seq<char>
    decreases args.len() - i,
{
    if i < 0 || i >= args.len() {
        Seq::empty()
    } else {
        (match args[i] {
            StrArgV::Lit { value, .. } => value,
            StrArgV::Expr { .. } => env[i],
        }) + args_value(args, i + 1, env)
    }
}

proof fn lemma_merge_from_value(args: Seq<StrArgV>, i: int, acc: Seq<char>, env: Seq<Seq<char>>)
    requires
        0 <= i <= args.len(),
    ensures
        eval_segs(merge_from(args, i, acc), env) == acc + args_value(args, i, env),
    decreases args.len() - i,
{
    if i >= args.len() {
        assert(acc + args_value(args, i, env) =~= acc);
        lemma_eval_flush(acc, env);
    } else {
        match args[i] {
            StrArgV::Lit { value, .. } => {
                lemma_merge_from_value(args, i + 1, acc + value, env);
                assert((acc + value) + args_value(args, i + 1, env) =~= acc + (value + args_value(
                    args,
                    i + 1,
                    env,
                )));
            },
            StrArgV::Expr { .. } => {
                lemma_merge_from_value(args, i + 1, Seq::empty(), env);
                let e = seq![SegV::Expr { index: i }];
                let rest = merge_from(args, i + 1, Seq::empty());
                lemma_eval_segs_add(flush(acc) + e, rest, env);
                lemma_eval_segs_add(flush(acc), e, env);
                lemma_eval_flush(acc, env);
                lemma_eval_singleton(SegV::Expr { index: i }, env);
                assert((acc + env[i]) + args_value(args, i + 1, env) =~= acc + (env[i]
                    + args_value(args, i + 1, env)));
            },
        }
    }
}

/// Merging preserves the value: under any assignment of a value to every
/// argument position, the buffer expansion's segments concatenate to
/// exactly the concatenation of all the arguments' values.
pub proof fn lemma_merge_preserves_value(args: Seq<StrArgV>, env: Seq<Seq<char>>)
    ensures
        eval_segs(strings_segments(args), env) == args_value(args, 0, env),
{
    lemma_merge_from_value(args, 0, Seq::empty(), env);
    assert(Seq::<char>::empty() + args_value(args, 0, env) =~= args_value(args, 0, env));
}

/// The positions of the expression arguments from `i` on, in order.
pub open spec fn expr_positions(args: Seq<StrArgV>, i: int) -> Seq<int>
    decreases args.len() - i,
{
    if i < 0 || i >= args.len() {
        Seq::empty()
    } else {
        (match args[i] {
            StrArgV::Expr { .. } => seq![i],
            StrArgV::Lit { .. } => Seq::empty(),
        }) + expr_positions(args, i + 1)
    }
}

proof fn lemma_merge_from_exprs(args: Seq<StrArgV>, i: int, acc: Seq<char>)
    requires
        0 <= i <= args.len(),
    ensures
        seg_exprs(merge_from(args, i, acc)) == expr_positions(args, i),
    decreases args.len() - i,
{
    if i >= args.len() {
        lemma_seg_exprs_flush(acc);
        assert(expr_positions(args, i) =~= Seq::<int>::empty());
    } else {
        match args[i] {
            StrArgV::Lit { .. } => {
                lemma_merge_from_exprs(args, i + 1, acc + args[i]->value);
                assert(expr_positions(args, i) =~= expr_positions(args, i + 1));
            },
            StrArgV::Expr { .. } => {
                lemma_merge_from_exprs(args, i + 1, Seq::empty());
                let e = seq![SegV::Expr { index: i }];
                let rest = merge_from(args, i + 1, Seq::empty());
                lemma_seg_exprs_add(flush(acc) + e, rest);
                lemma_seg_exprs_add(flush(acc), e);
                lemma_seg_exprs_flush(acc);
                lemma_seg_exprs_singleton(i);
                assert((Seq::<int>::empty() + seq![i]) + expr_positions(args, i + 1) =~= seq![i]
                    + expr_positions(args, i + 1));
                assert(expr_positions(args, i) =~= seq![i] + expr_positions(args, i + 1));
            },
        }
    }
}

/// Each expression argument gets exactly one binding, and the bindings
/// stand in argument order: every expression is evaluated exactly once,
/// in the order it was written.
pub proof fn lemma_merge_exprs_in_order(args: Seq<StrArgV>)
    ensures
        seg_exprs(strings_segments(args)) == expr_positions(args, 0),
{
    lemma_merge_from_exprs(args, 0, Seq::empty());
}

proof fn lemma_merge_from_shape(args: Seq<StrArgV>, i: int, acc: Seq<char>)
    requires
        0 <= i <= args.len(),
    ensures
        no_adjacent_lits(merge_from(args, i, acc)),
        lits_nonempty(merge_from(args, i, acc)),
    decreases args.len() - i,
{
    if i >= args.len() {
    } else {
        match args[i] {
            StrArgV::Lit { .. } => {
                lemma_merge_from_shape(args, i + 1, acc + args[i]->value);
            },
            StrArgV::Expr { .. } => {
                lemma_merge_from_shape(args, i + 1, Seq::empty());
                let f = flush(acc);
                let e = seq![SegV::Expr { index: i }];
                let rest = merge_from(args, i + 1, Seq::empty());
                let whole = f + e + rest;
                assert forall|k: int| 0 <= k < whole.len() - 1 implies !((#[trigger] whole[k])
                    is Lit && whole[k + 1] is Lit) by {
                    if k >= f.len() + 1 {
                        assert(whole[k] == rest[k - f.len() - 1]);
                        assert(whole[k + 1] == rest[k - f.len()]);
                    } else if k == f.len() {
                        assert(whole[k] == SegV::Expr { index: i });
                    } else {
                        assert(whole[k + 1] == SegV::Expr { index: i });
                    }
                }
                assert forall|k: int| 0 <= k < whole.len() implies ((#[trigger] whole[k]) is Lit
                    ==> whole[k]->value.len() > 0) by {
                    if k >= f.len() + 1 {
                        assert(whole[k] == rest[k - f.len() - 1]);
                    }
                }
            },
        }
    }
}

/// The merged runs are maximal: no two adjacent segments are both
/// literals, and no merged literal is empty.
pub proof fn lemma_merge_shape(args: Seq<StrArgV>)
    ensures
        no_adjacent_lits(strings_segments(args)),
        lits_nonempty(strings_segments(args)),
{
    lemma_merge_from_shape(args, 0, Seq::empty());
}

/// What the generated code evaluates to under `env`: the empty expansion
/// gives the empty string, the constant expansion the merged literal, and
/// the buffer expansion the concatenation of its segments.
pub open spec fn strings_value(plan: StringsPlanV, env: Seq<Seq<char>>) -> Seq<char> {
    match plan {
        StringsPlanV::Empty { .. } => Seq::empty(),
        StringsPlanV::AllLits { value } => value,
        StringsPlanV::Buffer { segments } => eval_segs(segments, env),
    }
}

/// Concatenates what a string plan's generated code would produce, under
/// the assignment `env` of a value to every argument position.
pub fn eval_strings_plan(plan: &StringsPlan, env: &Vec<String>) -> (r: String)
    requires
        plan@ matches StringsPlanV::Buffer { segments } ==> segs_wf(segments, env@.len() as int),
    ensures
        r@ == strings_value(plan@, str_views(env@)),
{
    match plan {
        StringsPlan::Empty { .. } => String::new(),
        StringsPlan::AllLits { value } => value.clone(),
        StringsPlan::Buffer { segments } => {
            proof {
                assert(plan@ == StringsPlanV::Buffer { segments: seg_views(segments@) });
            }
            eval_segments(segments, env)
        },
    }
}

proof fn lemma_lit_cat_is_args_value(args: Seq<StrArgV>, i: int, env: Seq<Seq<char>>)
    requires
        0 <= i <= args.len(),
        all_lits(args),
    ensures
        lit_cat_from(args, i) == args_value(args, i, env),
    decreases args.len() - i,
{
    if i < args.len() {
        lemma_lit_cat_is_args_value(args, i + 1, env);
    }
}

/// Whichever expansion the plan chooses, its value under `env` is the
/// concatenation of all the arguments' values.
pub proof fn lemma_strings_plan_value(args: Seq<StrArgV>, strict: bool, env: Seq<Seq<char>>)
    ensures
        strings_value(strings_plan_spec(args, strict), env) == args_value(args, 0, env),
{
    if args.len() == 0 {
    } else if all_lits(args) {
        lemma_lit_cat_is_args_value(args, 0, env);
    } else {
        lemma_merge_preserves_value(args, env);
    }
}

} // verus!
