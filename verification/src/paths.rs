//! The expansion plan of the path macro.
//!
//! Adjacent string-literal arguments are merged into one compile-time
//! constant, with a separator after each literal; any other argument keeps
//! a binding of its own and is pushed onto the path buffer, which inserts
//! separators itself.  When the input ends in a literal run, the run's
//! trailing separator is dropped.  With only literals the macro expands to
//! the merged constant, and with no arguments to an empty path buffer.

use vstd::prelude::*;

use crate::parse::{arg_views, ConcatPathsParser, StrArg, StrArgV};
use crate::segs::{
    break_combined_lit_chain, eval_segs, flush, lemma_eval_flush, lemma_eval_segs_add,
    lemma_eval_singleton, lemma_seg_exprs_add, lemma_seg_exprs_flush, lemma_seg_exprs_singleton,
    lits_nonempty, no_adjacent_lits, seg_exprs, seg_views, SegV, StrSegment,
};
use crate::strbuild::{pop_char, push_char, push_str};
use crate::strings::{all_lits, expr_positions};

verus! {

/// The separator put after each merged literal.
pub open spec fn sep() -> char {
    '/'
}

/// A literal run with its trailing separator dropped; the empty run stays
/// empty.
pub open spec fn trim_sep(acc: Seq<char>) -> Seq<char> {
    if acc.len() > 0 {
        acc.drop_last()
    } else {
        acc
    }
}

/// The merged segments of the arguments from position `i` on, with `acc`
/// the literal run (separators included) accumulated so far.  The run
/// still accumulated when the input ends loses its trailing separator.
pub open spec fn merge_paths_from(args: Seq<StrArgV>, i: int, acc: Seq<char>) -> Seq<SegV>
    decreases args.len() - i,
{
    if i >= args.len() {
        flush(trim_sep(acc))
    } else {
        match args[i] {
            StrArgV::Lit { value, .. } => merge_paths_from(args, i + 1, acc + value + seq![sep()]),
            StrArgV::Expr { .. } => flush(acc) + seq![SegV::Expr { index: i }] + merge_paths_from(
                args,
                i + 1,
                Seq::empty(),
            ),
        }
    }
}

/// The segments of the path macro's buffer expansion.
pub open spec fn paths_segments(args: Seq<StrArgV>) -> Seq<SegV> {
    merge_paths_from(args, 0, Seq::empty())
}

/// The concatenation of the literal arguments' values from `i` on, each
/// followed by one separator.
pub open spec fn path_lit_cat_from(args: Seq<StrArgV>, i: int) -> Seq<char>
    decreases args.len() - i,
{
    if i >= args.len() {
        Seq::empty()
    } else {
        (match args[i] {
            StrArgV::Lit { value, .. } => value + seq![sep()],
            StrArgV::Expr { .. } => Seq::empty(),
        }) + path_lit_cat_from(args, i + 1)
    }
}

/// The expansion chosen by the path macro.
#[derive(Clone, Debug)]
pub enum PathsPlan {
    /// No arguments: expand to a new, empty path buffer.
    Empty,
    /// Every argument is a string literal: expand to the merged constant.
    AllLits { value: String },
    /// Otherwise: one binding per segment, a single buffer allocation of
    /// the exact total length, and one push per binding.
    Buffer { segments: Vec<StrSegment> },
}

/// The mathematical value of a [`PathsPlan`].
pub enum PathsPlanV {
    Empty,
    AllLits { value: Seq<char> },
    Buffer { segments: Seq<SegV> },
}

impl View for PathsPlan {
    type V = PathsPlanV;

    open spec fn view(&self) -> PathsPlanV {
        match self {
            PathsPlan::Empty => PathsPlanV::Empty,
            PathsPlan::AllLits { value } => PathsPlanV::AllLits { value: value@ },
            PathsPlan::Buffer { segments } => PathsPlanV::Buffer {
                segments: seg_views(segments@),
            },
        }
    }
}

/// The plan of the path macro on parsed arguments.
pub open spec fn paths_plan_spec(args: Seq<StrArgV>) -> PathsPlanV {
    if args.len() == 0 {
        PathsPlanV::Empty
    } else if all_lits(args) {
        PathsPlanV::AllLits { value: trim_sep(path_lit_cat_from(args, 0)) }
    } else {
        PathsPlanV::Buffer { segments: paths_segments(args) }
    }
}

/// The path macro's expansion plan: merges adjacent literal arguments with
/// a separator after each, gives every other argument its own
/// single-evaluation binding, and chooses the constant expansion when only
/// literals were passed.
pub fn concat_paths(p: &ConcatPathsParser) -> (r: PathsPlan)
    ensures
        r@ == paths_plan_spec(arg_views(p.args@)),
{
    let ghost av = arg_views(p.args@);
    let n = p.args.len();
    if n == 0 {
        return PathsPlan::Empty;
    }
    let mut combined = String::new();
    let mut segments: Vec<StrSegment> = Vec::new();
    let mut only_lits = true;
    let mut i: usize = 0;
    proof {
        assert(seg_views(segments@) =~= Seq::<SegV>::empty());
        assert(seg_views(segments@) + merge_paths_from(av, 0, combined@) =~= merge_paths_from(
            av,
            0,
            Seq::empty(),
        ));
        assert(combined@ + path_lit_cat_from(av, 0) =~= path_lit_cat_from(av, 0));
    }
    while i < n
        invariant
            n == p.args@.len(),
            av == arg_views(p.args@),
            0 <= i <= n,
            seg_views(segments@) + merge_paths_from(av, i as int, combined@) == paths_segments(av),
            only_lits <==> (forall|k: int| 0 <= k < i ==> (#[trigger] av[k]) is Lit),
            only_lits ==> combined@ + path_lit_cat_from(av, i as int) == path_lit_cat_from(av, 0),
            only_lits ==> segments@.len() == 0,
            only_lits && i > 0 ==> combined@.len() > 0,
        decreases n - i,
    {
        proof {
            assert(av[i as int] == p.args@[i as int]@);
        }
        let ghost c0 = combined@;
        let ghost s0 = segments@;
        match &p.args[i] {
            StrArg::Lit { value, .. } => {
                push_str(&mut combined, value.as_str());
                push_char(&mut combined, sep_char());
                proof {
                    assert(combined@ =~= c0 + value@ + seq![sep()]);
                    assert(merge_paths_from(av, i as int, c0) == merge_paths_from(
                        av,
                        i + 1,
                        c0 + value@ + seq![sep()],
                    ));
                    if only_lits {
                        let rest = path_lit_cat_from(av, i + 1);
                        assert(path_lit_cat_from(av, i as int) == (value@ + seq![sep()]) + rest);
                        assert(c0 + ((value@ + seq![sep()]) + rest) =~= (c0 + value@ + seq![sep()])
                            + rest);
                    }
                }
            },
            StrArg::Expr { .. } => {
                break_combined_lit_chain(&mut segments, i, &mut combined);
                only_lits = false;
                proof {
                    assert(merge_paths_from(av, i as int, c0) == flush(c0) + seq![
                        SegV::Expr { index: i as int },
                    ] + merge_paths_from(av, i + 1, Seq::empty()));
                    assert(seg_views(segments@) + merge_paths_from(av, i + 1, Seq::empty())
                        =~= seg_views(s0) + merge_paths_from(av, i as int, c0));
                }
            },
        }
        i += 1;
    }
    let ghost c_end = combined@;
    pop_char(&mut combined);
    proof {
        assert(combined@ == trim_sep(c_end));
    }
    if only_lits {
        proof {
            assert(all_lits(av));
            assert(c_end + path_lit_cat_from(av, n as int) =~= c_end);
        }
        return PathsPlan::AllLits { value: combined };
    }
    proof {
        assert(merge_paths_from(av, n as int, c_end) == flush(trim_sep(c_end)));
    }
    if !combined.as_str().is_empty() {
        let ghost s0 = segments@;
        let ghost c = combined@;
        segments.push(StrSegment::Lit { value: combined });
        proof {
            assert(seg_views(segments@) =~= seg_views(s0) + flush(c));
        }
        return PathsPlan::Buffer { segments };
    }
    proof {
        assert(seg_views(segments@) + flush(combined@) =~= seg_views(segments@));
    }
    PathsPlan::Buffer { segments }
}

/// The separator as an executable character.
fn sep_char() -> (c: char)
    ensures
        c == sep(),
{
    '/'
}

/// The raw value of the arguments from `i` on, under an assignment `env`
/// of a string value to every argument position: every literal value
/// followed by one separator, assigned values as they are, concatenated
/// in order.
pub open spec fn paths_raw_value(args: Seq<StrArgV>, i: int, env: Seq<Seq<char>>) -> Seq<char>
    decreases args.len() - i,
{
    if i < 0 || i >= args.len() {
        Seq::empty()
    } else {
        (match args[i] {
            StrArgV::Lit { value, .. } => value + seq![sep()],
            StrArgV::Expr { .. } => env[i],
        }) + paths_raw_value(args, i + 1, env)
    }
}

/// The literal run still accumulated when the input ends: the values of
/// the literals after the last expression argument, each followed by one
/// separator.
pub open spec fn tail_acc(args: Seq<StrArgV>, i: int, acc: Seq<char>) -> Seq<char>
    decreases args.len() - i,
{
    if i >= args.len() {
        acc
    } else {
        match args[i] {
            StrArgV::Lit { value, .. } => tail_acc(args, i + 1, acc + value + seq![sep()]),
            StrArgV::Expr { .. } => tail_acc(args, i + 1, Seq::empty()),
        }
    }
}

proof fn lemma_tail_nonempty_raw(args: Seq<StrArgV>, i: int, env: Seq<Seq<char>>)
    requires
        0 <= i <= args.len(),
        tail_acc(args, i, Seq::empty()).len() > 0,
    ensures
        paths_raw_value(args, i, env).len() > 0,
    decreases args.len() - i,
{
    if i >= args.len() {
    } else {
        match args[i] {
            StrArgV::Lit { .. } => {
            },
            StrArgV::Expr { .. } => {
                lemma_tail_nonempty_raw(args, i + 1, env);
            },
        }
    }
}

proof fn lemma_merge_paths_from_value(
    args: Seq<StrArgV>,
    i: int,
    acc: Seq<char>,
    env: Seq<Seq<char>>,
)
    requires
        0 <= i <= args.len(),
    ensures
        eval_segs(merge_paths_from(args, i, acc), env) == (if tail_acc(args, i, acc).len() > 0 {
            (acc + paths_raw_value(args, i, env)).drop_last()
        } else {
            acc + paths_raw_value(args, i, env)
        }),
    decreases args.len() - i,
{
    if i >= args.len() {
        lemma_eval_flush(trim_sep(acc), env);
        assert(acc + paths_raw_value(args, i, env) =~= acc);
        if acc.len() > 0 {
            assert(trim_sep(acc) == acc.drop_last());
        }
    } else {
        match args[i] {
            StrArgV::Lit { value, .. } => {
                lemma_merge_paths_from_value(args, i + 1, acc + value + seq![sep()], env);
                let raw1 = paths_raw_value(args, i + 1, env);
                assert((acc + value + seq![sep()]) + raw1 =~= acc + ((value + seq![sep()]) + raw1));
                assert(paths_raw_value(args, i, env) == (value + seq![sep()]) + raw1);
            },
            StrArgV::Expr { .. } => {
                lemma_merge_paths_from_value(args, i + 1, Seq::empty(), env);
                let e = seq![SegV::Expr { index: i }];
                let rest = merge_paths_from(args, i + 1, Seq::empty());
                lemma_eval_segs_add(flush(acc) + e, rest, env);
                lemma_eval_segs_add(flush(acc), e, env);
                lemma_eval_flush(acc, env);
                lemma_eval_singleton(SegV::Expr { index: i }, env);
                let raw1 = paths_raw_value(args, i + 1, env);
                assert(Seq::empty() + raw1 =~= raw1);
                assert(paths_raw_value(args, i, env) == env[i] + raw1);
                if tail_acc(args, i + 1, Seq::empty()).len() > 0 {
                    lemma_tail_nonempty_raw(args, i + 1, env);
                    assert((acc + env[i]) + raw1.drop_last() =~= ((acc + env[i]) + raw1)
                        .drop_last());
                    assert((acc + env[i]) + raw1 =~= acc + (env[i] + raw1));
                    assert(eval_segs(merge_paths_from(args, i, acc), env) == (acc + env[i])
                        + raw1.drop_last());
                } else {
                    assert((acc + env[i]) + raw1 =~= acc + (env[i] + raw1));
                }
            },
        }
    }
}

/// What the buffer expansion's bindings concatenate to: the arguments'
/// values in order, every literal followed by one separator — except that
/// when the input ends in a literal run, that run's trailing separator is
/// dropped.
pub proof fn lemma_paths_merge_value(args: Seq<StrArgV>, env: Seq<Seq<char>>)
    ensures
        eval_segs(paths_segments(args), env) == (if tail_acc(args, 0, Seq::empty()).len() > 0 {
            paths_raw_value(args, 0, env).drop_last()
        } else {
            paths_raw_value(args, 0, env)
        }),
{
    lemma_merge_paths_from_value(args, 0, Seq::empty(), env);
    let raw = paths_raw_value(args, 0, env);
    assert(Seq::empty() + raw =~= raw);
}

proof fn lemma_merge_paths_from_exprs(args: Seq<StrArgV>, i: int, acc: Seq<char>)
    requires
        0 <= i <= args.len(),
    ensures
        seg_exprs(merge_paths_from(args, i, acc)) == expr_positions(args, i),
    decreases args.len() - i,
{
    if i >= args.len() {
        lemma_seg_exprs_flush(trim_sep(acc));
        assert(expr_positions(args, i) =~= Seq::<int>::empty());
    } else {
        match args[i] {
            StrArgV::Lit { value, .. } => {
                lemma_merge_paths_from_exprs(args, i + 1, acc + value + seq![sep()]);
                assert(expr_positions(args, i) =~= expr_positions(args, i + 1));
            },
            StrArgV::Expr { .. } => {
                lemma_merge_paths_from_exprs(args, i + 1, Seq::empty());
                let e = seq![SegV::Expr { index: i }];
                let rest = merge_paths_from(args, i + 1, Seq::empty());
                lemma_seg_exprs_add(flush(acc) + e, rest);
                lemma_seg_exprs_add(flush(acc), e);
                lemma_seg_exprs_flush(acc);
                lemma_seg_exprs_singleton(i);
                assert((Seq::<int>::empty() + seq![i]) + expr_positions(args, i + 1) =~= seq![i]
                    + expr_positions(args, i + 1));
                assert(expr_positions(args, i) =~= seq![i] + expr_positions(args, i + 1));
            },
        }
    }
}

/// Each expression argument gets exactly one binding, and the bindings
/// stand in argument order: every expression is evaluated exactly once,
/// in the order it was written.
pub proof fn lemma_paths_exprs_in_order(args: Seq<StrArgV>)
    ensures
        seg_exprs(paths_segments(args)) == expr_positions(args, 0),
{
    lemma_merge_paths_from_exprs(args, 0, Seq::empty());
}

proof fn lemma_merge_paths_from_shape(args: Seq<StrArgV>, i: int, acc: Seq<char>)
    requires
        0 <= i <= args.len(),
    ensures
        no_adjacent_lits(merge_paths_from(args, i, acc)),
        lits_nonempty(merge_paths_from(args, i, acc)),
    decreases args.len() - i,
{
    if i >= args.len() {
    } else {
        match args[i] {
            StrArgV::Lit { value, .. } => {
                lemma_merge_paths_from_shape(args, i + 1, acc + value + seq![sep()]);
            },
            StrArgV::Expr { .. } => {
                lemma_merge_paths_from_shape(args, i + 1, Seq::empty());
                let f = flush(acc);
                let e = seq![SegV::Expr { index: i }];
                let rest = merge_paths_from(args, i + 1, Seq::empty());
                let whole = f + e + rest;
                assert forall|k: int| 0 <= k < whole.len() - 1 implies !((#[trigger] whole[k])
                    is Lit && whole[k + 1] is Lit) by {
                    if k >= f.len() + 1 {
                        assert(whole[k] == rest[k - f.len() - 1]);
                        assert(whole[k + 1] == rest[k - f.len()]);
                    } else if k == f.len() {
                        assert(whole[k] == SegV::Expr { index: i });
                    } else {
                        assert(whole[k + 1] == SegV::Expr { index: i });
                    }
                }
                assert forall|k: int| 0 <= k < whole.len() implies ((#[trigger] whole[k]) is Lit
                    ==> whole[k]->value.len() > 0) by {
                    if k >= f.len() + 1 {
                        assert(whole[k] == rest[k - f.len() - 1]);
                    }
                }
            },
        }
    }
}

/// The merged runs are maximal: no two adjacent segments are both
/// literals, and no merged literal is empty.
pub proof fn lemma_paths_merge_shape(args: Seq<StrArgV>)
    ensures
        no_adjacent_lits(paths_segments(args)),
        lits_nonempty(paths_segments(args)),
{
    lemma_merge_paths_from_shape(args, 0, Seq::empty());
}

} // verus!
