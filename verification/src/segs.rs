//! The segments of a buffer-building expansion.
//!
//! When a macro cannot expand to a single constant, it generates one
//! binding per segment — a merged literal run or a single argument
//! expression — then a buffer sized to the exact total length, and one
//! push per binding.  The `k`-th segment is bound to the variable named
//! by [`crate::names::get_var_ident`].

use vstd::prelude::*;

use crate::strbuild::push_str;

verus! {

/// One generated binding of a buffer-building expansion of the string and
/// path macros.
#[derive(Clone, Debug)]
pub enum StrSegment {
    /// A run of adjacent literals merged into one compile-time constant.
    Lit { value: String },
    /// The argument at position `index` of the argument list, evaluated
    /// exactly once.
    Expr { index: usize },
}

/// The mathematical value of a [`StrSegment`].
pub enum SegV {
    Lit { value: Seq<char> },
    Expr { index: int },
}

impl View for StrSegment {
    type V = SegV;

    open spec fn view(&self) -> SegV {
        match self {
            StrSegment::Lit { value } => SegV::Lit { value: value@ },
            StrSegment::Expr { index } => SegV::Expr { index: *index as int },
        }
    }
}

/// The views of a sequence of segments.
pub open spec fn seg_views(segs: Seq<StrSegment>) -> Seq<SegV> {
    segs.map_values(|s: StrSegment| s@)
}

/// The views of a sequence of strings.
pub open spec fn str_views(strs: Seq<String>) -> Seq<Seq<char>> {
    strs.map_values(|s: String| s@)
}

/// The segments an accumulated literal run turns into: one merged literal
/// when the run is nonempty, nothing otherwise.
pub open spec fn flush(acc: Seq<char>) -> Seq<SegV> {
    if acc.len() > 0 {
        seq![SegV::Lit { value: acc }]
    } else {
        Seq::empty()
    }
}

/// The value of one segment, under an assignment `env` of a string value
/// to every argument position.
pub open spec fn eval_seg(s: SegV, env: Seq<Seq<char>>) -> Seq<char> {
    match s {
        SegV::Lit { value } => value,
        SegV::Expr { index } => env[index],
    }
}

/// The concatenated value of the segments, under `env`.
pub open spec fn eval_segs(segs: Seq<SegV>, env: Seq<Seq<char>>) -> Seq<char>
    decreases segs.len(),
{
    if segs.len() == 0 {
        Seq::empty()
    } else {
        eval_seg(segs[0], env) + eval_segs(segs.drop_first(), env)
    }
}

/// Segment evaluation distributes over concatenation.
pub proof fn lemma_eval_segs_add(x: Seq<SegV>, y: Seq<SegV>, env: Seq<Seq<char>>)
    ensures
        eval_segs(x + y, env) == eval_segs(x, env) + eval_segs(y, env),
    decreases x.len(),
{
    if x.len() == 0 {
        assert(x + y =~= y);
        assert(eval_segs(x, env) + eval_segs(y, env) =~= eval_segs(y, env));
    } else {
        assert((x + y).drop_first() =~= x.drop_first() + y);
        lemma_eval_segs_add(x.drop_first(), y, env);
        let a = eval_seg(x[0], env);
        let b = eval_segs(x.drop_first(), env);
        let c = eval_segs(y, env);
        assert(a + (b + c) =~= (a + b) + c);
    }
}

/// The argument positions of the expression segments, in order.
pub open spec fn seg_exprs(segs: Seq<SegV>) -> Seq<int>
    decreases segs.len(),
{
    if segs.len() == 0 {
        Seq::empty()
    } else {
        (match segs[0] {
            SegV::Expr { index } => seq![index],
            SegV::Lit { .. } => Seq::empty(),
        }) + seg_exprs(segs.drop_first())
    }
}

/// The expression positions of a concatenation are the two lists of
/// expression positions, in order.
pub proof fn lemma_seg_exprs_add(x: Seq<SegV>, y: Seq<SegV>)
    ensures
        seg_exprs(x + y) == seg_exprs(x) + seg_exprs(y),
    decreases x.len(),
{
    if x.len() == 0 {
        assert(x + y =~= y);
        assert(seg_exprs(x) + seg_exprs(y) =~= seg_exprs(y));
    } else {
        assert((x + y).drop_first() =~= x.drop_first() + y);
        lemma_seg_exprs_add(x.drop_first(), y);
        let a = (match x[0] {
            SegV::Expr { index } => seq![index],
            SegV::Lit { .. } => Seq::<int>::empty(),
        });
        let b = seg_exprs(x.drop_first());
        let c = seg_exprs(y);
        assert(a + (b + c) =~= (a + b) + c);
    }
}

/// Evaluating a flushed literal run gives the run back.
pub proof fn lemma_eval_flush(acc: Seq<char>, env: Seq<Seq<char>>)
    ensures
        eval_segs(flush(acc), env) == acc,
{
    if acc.len() > 0 {
        reveal_with_fuel(eval_segs, 2);
        assert(flush(acc).drop_first() =~= Seq::<SegV>::empty());
        assert(eval_segs(flush(acc), env) =~= acc);
    }
}

/// A single segment evaluates to its own value.
pub proof fn lemma_eval_singleton(s: SegV, env: Seq<Seq<char>>)
    ensures
        eval_segs(seq![s], env) == eval_seg(s, env),
{
    reveal_with_fuel(eval_segs, 2);
    assert(seq![s].drop_first() =~= Seq::<SegV>::empty());
    assert(eval_segs(seq![s], env) =~= eval_seg(s, env));
}

/// A flushed literal run holds no expression segment.
pub proof fn lemma_seg_exprs_flush(acc: Seq<char>)
    ensures
        seg_exprs(flush(acc)) == Seq::<int>::empty(),
{
    if acc.len() > 0 {
        reveal_with_fuel(seg_exprs, 2);
        assert(flush(acc).drop_first() =~= Seq::<SegV>::empty());
        assert(seg_exprs(flush(acc)) =~= Seq::<int>::empty());
    }
}

/// A single expression segment contributes exactly its position.
pub proof fn lemma_seg_exprs_singleton(index: int)
    ensures
        seg_exprs(seq![SegV::Expr { index }]) == seq![index],
{
    let s = seq![SegV::Expr { index }];
    reveal_with_fuel(seg_exprs, 2);
    assert(s.drop_first() =~= Seq::<SegV>::empty());
    assert(seg_exprs(s) =~= seq![index]);
}

/// No two adjacent segments are both merged literals: every literal run
/// was collapsed into a single constant.
pub open spec fn no_adjacent_lits(segs: Seq<SegV>) -> bool {
    forall|k: int| 0 <= k < segs.len() - 1 ==> !((#[trigger] segs[k]) is Lit && segs[k + 1] is Lit)
}

/// Every merged literal segment is nonempty.
pub open spec fn lits_nonempty(segs: Seq<SegV>) -> bool {
    forall|k: int| 0 <= k < segs.len() ==> (segs[k] is Lit ==> segs[k]->value.len() > 0)
}

/// The sum of the segments' value lengths under `env`: the capacity the
/// generated buffer is allocated with.
pub open spec fn seg_len_sum(segs: Seq<SegV>, env: Seq<Seq<char>>) -> int
    decreases segs.len(),
{
    if segs.len() == 0 {
        0int
    } else {
        eval_seg(segs[0], env).len() + seg_len_sum(segs.drop_first(), env)
    }
}

/// The precomputed capacity is exact: the concatenation of the segments
/// is precisely as long as the sum of their lengths.
pub proof fn lemma_eval_len_is_sum(segs: Seq<SegV>, env: Seq<Seq<char>>)
    ensures
        eval_segs(segs, env).len() == seg_len_sum(segs, env),
    decreases segs.len(),
{
    if segs.len() > 0 {
        lemma_eval_len_is_sum(segs.drop_first(), env);
    }
}

/// Whether `env` assigns a value to every expression segment.
pub open spec fn segs_wf(segs: Seq<SegV>, env_len: int) -> bool {
    forall|k: int| 0 <= k < segs.len() ==> (#[trigger] segs[k] matches SegV::Expr { index }
        ==> 0 <= index < env_len)
}

/// Ends the literal run accumulated in `combined`: flushes it as one
/// merged literal segment when it is nonempty, then gives the expression
/// argument at `index` a segment of its own.
pub fn break_combined_lit_chain(segments: &mut Vec<StrSegment>, index: usize, combined: &mut String)
    ensures
        seg_views(final(segments)@) == seg_views(old(segments)@) + flush(old(combined)@) + seq![
            SegV::Expr { index: index as int },
        ],
        final(combined)@ == Seq::<char>::empty(),
{
    let ghost s0 = segments@;
    let ghost c0 = combined@;
    if !combined.as_str().is_empty() {
        let lit = combined.clone();
        *combined = String::new();
        segments.push(StrSegment::Lit { value: lit });
        proof {
            assert(seg_views(segments@) =~= seg_views(s0) + flush(c0));
        }
    } else {
        proof {
            assert(seg_views(segments@) =~= seg_views(s0) + flush(c0));
        }
    }
    segments.push(StrSegment::Expr { index });
    proof {
        assert(seg_views(segments@) =~= seg_views(s0) + flush(c0) + seq![
            SegV::Expr { index: index as int },
        ]);
    }
}

/// Concatenates the segments' values in order, under the assignment `env`
/// of a value to every argument position: the value the generated buffer
/// holds when it is returned.
pub fn eval_segments(segments: &Vec<StrSegment>, env: &Vec<String>) -> (r: String)
    requires
        segs_wf(seg_views(segments@), env@.len() as int),
    ensures
        r@ == eval_segs(seg_views(segments@), str_views(env@)),
{
    let ghost sv = seg_views(segments@);
    let ghost ev = str_views(env@);
    let mut buf = String::new();
    let n = segments.len();
    let mut i: usize = 0;
    proof {
        assert(sv.skip(0) =~= sv);
        assert(buf@ + eval_segs(sv, ev) =~= eval_segs(sv, ev));
    }
    while i < n
        invariant
            n == segments@.len(),
            sv == seg_views(segments@),
            ev == str_views(env@),
            segs_wf(sv, env@.len() as int),
            0 <= i <= n,
            buf@ + eval_segs(sv.skip(i as int), ev) == eval_segs(sv, ev),
        decreases n - i,
    {
        let ghost b0 = buf@;
        proof {
            assert(sv[i as int] == segments@[i as int]@);
            assert(sv.skip(i as int)[0] == sv[i as int]);
            assert(sv.skip(i as int).drop_first() =~= sv.skip(i as int + 1));
        }
        match &segments[i] {
            StrSegment::Lit { value } => {
                push_str(&mut buf, value.as_str());
            },
            StrSegment::Expr { index } => {
                proof {
                    assert(ev[*index as int] == env@[*index as int]@);
                }
                push_str(&mut buf, env[*index].as_str());
            },
        }
        proof {
            let a = eval_seg(sv[i as int], ev);
            let b = eval_segs(sv.skip(i as int + 1), ev);
            assert(buf@ == b0 + a);
            assert((b0 + a) + b =~= b0 + (a + b));
        }
        i += 1;
    }
    proof {
        assert(sv.skip(n as int) =~= Seq::<SegV>::empty());
        assert(buf@ + eval_segs(sv.skip(n as int), ev) =~= buf@);
    }
    buf
}

} // verus!
