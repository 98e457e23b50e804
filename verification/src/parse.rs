//! The grammar of the macros' argument lists.
//!
//! All three macros take comma-separated argument expressions, with an
//! optional trailing comma.  The string macro additionally accepts a
//! `strict :` prefix, and the fast macro lets each argument carry a `const`
//! marker.  An argument is a run of tokens between top-level commas; a run
//! that is a single string literal is classified as a literal argument.
//! The recursive spec functions [`parse_args`], [`parse_fast`],
//! [`parse_concat_strings`] define the grammar, and the executable parsers
//! are proved to return exactly what they say.

use vstd::prelude::*;

use crate::toks::Tok;

verus! {

/// Why an argument list is rejected.
#[derive(Clone, Copy, Debug, PartialEq, Eq, Structural)]
pub enum ParseError {
    /// An argument between separators is empty: a leading, doubled or lone
    /// comma, or a `const` marker followed by nothing.
    EmptyArg,
    /// The `strict` marker is not followed by a colon.
    ExpectedColon,
}

/// One argument of the string and path macros.
#[derive(Clone, Debug)]
pub enum StrArg {
    /// An argument that is a single string literal: its value, and the
    /// position `lo` of the literal token.
    Lit { value: String, lo: usize },
    /// Any other argument expression, standing at tokens `lo .. hi`.
    Expr { lo: usize, hi: usize },
}

/// The mathematical value of a [`StrArg`].
pub enum StrArgV {
    Lit { value: Seq<char>, lo: int },
    Expr { lo: int, hi: int },
}

impl View for StrArg {
    type V = StrArgV;

    open spec fn view(&self) -> StrArgV {
        match self {
            StrArg::Lit { value, lo } => StrArgV::Lit { value: value@, lo: *lo as int },
            StrArg::Expr { lo, hi } => StrArgV::Expr { lo: *lo as int, hi: *hi as int },
        }
    }
}

/// The views of a sequence of arguments.
pub open spec fn arg_views(args: Seq<StrArg>) -> Seq<StrArgV> {
    args.map_values(|a: StrArg| a@)
}

/// Where an argument's tokens begin.
pub open spec fn arg_lo(a: StrArgV) -> int {
    match a {
        StrArgV::Lit { lo, .. } => lo,
        StrArgV::Expr { lo, .. } => lo,
    }
}

/// Where an argument's tokens end.
pub open spec fn arg_hi(a: StrArgV) -> int {
    match a {
        StrArgV::Lit { lo, .. } => lo + 1,
        StrArgV::Expr { hi, .. } => hi,
    }
}

/// One argument of the fast macro: the expression's tokens `lo .. hi`,
/// possibly preceded by a `const` marker.
#[derive(Clone, Copy, Debug)]
pub struct Item {
    pub is_const: bool,
    pub lo: usize,
    pub hi: usize,
}

/// The mathematical value of an [`Item`].
pub struct ItemV {
    pub is_const: bool,
    pub lo: int,
    pub hi: int,
}

impl View for Item {
    type V = ItemV;

    open spec fn view(&self) -> ItemV {
        ItemV { is_const: self.is_const, lo: self.lo as int, hi: self.hi as int }
    }
}

/// The views of a sequence of items.
pub open spec fn item_views(items: Seq<Item>) -> Seq<ItemV> {
    items.map_values(|it: Item| it@)
}

/// The parsed input of the string macro.
#[derive(Clone, Debug)]
pub struct ConcatStringsParser {
    pub args: Vec<StrArg>,
    pub strict: bool,
}

/// The parsed input of the path macro.
#[derive(Clone, Debug)]
pub struct ConcatPathsParser {
    pub args: Vec<StrArg>,
}

/// The parsed input of the fast macro.
#[derive(Clone, Debug)]
pub struct FastConcatParser {
    pub items: Vec<Item>,
}

/// The position of the first top-level comma at or after `i`, or the end
/// of the input.
pub open spec fn comma_from(toks: Seq<Tok>, i: int) -> int
    decreases toks.len() - i,
{
    if i >= toks.len() {
        toks.len() as int
    } else if toks[i] is Comma {
        i
    } else {
        comma_from(toks, i + 1)
    }
}

/// The comma scan lands on the first comma at or after `i`, or at the end.
pub proof fn lemma_comma_from(toks: Seq<Tok>, i: int)
    requires
        i <= toks.len(),
    ensures
        i <= comma_from(toks, i) <= toks.len(),
        forall|j: int| i <= j < comma_from(toks, i) ==> !(toks[j] is Comma),
        comma_from(toks, i) < toks.len() ==> toks[comma_from(toks, i)] is Comma,
    decreases toks.len() - i,
{
    if i >= toks.len() {
    } else if toks[i] is Comma {
    } else {
        lemma_comma_from(toks, i + 1);
    }
}

/// The argument standing at tokens `lo .. hi`: a literal argument when the
/// span is a single string literal, any other expression otherwise.
pub open spec fn str_arg_of(toks: Seq<Tok>, lo: int, hi: int) -> StrArgV {
    if hi == lo + 1 && toks[lo] is StrLit {
        StrArgV::Lit { value: toks[lo]->value@, lo }
    } else {
        StrArgV::Expr { lo, hi }
    }
}

/// The comma-separated arguments of the string and path macros, from
/// position `i` on.
pub open spec fn parse_args(toks: Seq<Tok>, i: int) -> Result<Seq<StrArgV>, ParseError>
    decreases toks.len() + 1 - i,
    via parse_args_decreases
{
    if i >= toks.len() {
        Ok(Seq::empty())
    } else if toks[i] is Comma {
        Err(ParseError::EmptyArg)
    } else {
        let j = comma_from(toks, i);
        match parse_args(toks, j + 1) {
            Ok(rest) => Ok(seq![str_arg_of(toks, i, j)] + rest),
            Err(e) => Err(e),
        }
    }
}

#[via_fn]
proof fn parse_args_decreases(toks: Seq<Tok>, i: int) {
    if i < toks.len() && !(toks[i] is Comma) {
        lemma_comma_from(toks, i);
    }
}

/// One item of the fast macro at position `i`, and the position of the
/// separator (or end) after it.
pub open spec fn parse_item(toks: Seq<Tok>, i: int) -> Result<(ItemV, int), ParseError> {
    if toks[i] is KwConst {
        if i + 1 >= toks.len() || toks[i + 1] is Comma {
            Err(ParseError::EmptyArg)
        } else {
            let j = comma_from(toks, i + 1);
            Ok((ItemV { is_const: true, lo: i + 1, hi: j }, j))
        }
    } else {
        let j = comma_from(toks, i);
        Ok((ItemV { is_const: false, lo: i, hi: j }, j))
    }
}

/// The comma-separated items of the fast macro, from position `i` on.
pub open spec fn parse_fast(toks: Seq<Tok>, i: int) -> Result<Seq<ItemV>, ParseError>
    decreases toks.len() + 1 - i,
    via parse_fast_decreases
{
    if i >= toks.len() {
        Ok(Seq::empty())
    } else if toks[i] is Comma {
        Err(ParseError::EmptyArg)
    } else {
        match parse_item(toks, i) {
            Ok((item, j)) => match parse_fast(toks, j + 1) {
                Ok(rest) => Ok(seq![item] + rest),
                Err(e) => Err(e),
            },
            Err(e) => Err(e),
        }
    }
}

#[via_fn]
proof fn parse_fast_decreases(toks: Seq<Tok>, i: int) {
    if i < toks.len() && !(toks[i] is Comma) {
        if toks[i] is KwConst {
            if !(i + 1 >= toks.len() || toks[i + 1] is Comma) {
                lemma_comma_from(toks, i + 1);
            }
        } else {
            lemma_comma_from(toks, i);
        }
    }
}

/// The parse of the string macro's whole input: an optional `strict :`
/// prefix, then comma-separated arguments.
pub open spec fn parse_concat_strings(toks: Seq<Tok>) -> Result<
    (Seq<StrArgV>, bool),
    ParseError,
> {
    if toks.len() > 0 && toks[0] is KwStrict {
        if toks.len() > 1 && toks[1] is Colon {
            match parse_args(toks, 2) {
                Ok(args) => Ok((args, true)),
                Err(e) => Err(e),
            }
        } else {
            Err(ParseError::ExpectedColon)
        }
    } else {
        match parse_args(toks, 0) {
            Ok(args) => Ok((args, false)),
            Err(e) => Err(e),
        }
    }
}

/// What a successful parse looks like: the arguments' token spans stand
/// in order, begin at the start, are separated by single commas, cover
/// the input to its end but for one trailing comma, hold no top-level
/// comma themselves, and each argument is the classification of its own
/// span.
pub proof fn lemma_parse_args_shape(toks: Seq<Tok>, i: int)
    requires
        0 <= i <= toks.len(),
        parse_args(toks, i) is Ok,
    ensures
        ({
            let args = parse_args(toks, i)->Ok_0;
            &&& (args.len() == 0 ==> i == toks.len())
            &&& (args.len() > 0 ==> arg_lo(args[0]) == i)
            &&& forall|k: int|
                0 <= k < args.len() ==> i <= arg_lo(#[trigger] args[k]) < arg_hi(args[k])
                    <= toks.len()
            &&& forall|k: int, j: int|
                0 <= k < args.len() && arg_lo(#[trigger] args[k]) <= j < arg_hi(args[k]) ==> !((
                #[trigger] toks[j]) is Comma)
            &&& forall|k: int|
                0 <= k < args.len() - 1 ==> arg_hi(#[trigger] args[k]) < toks.len()
                    && toks[arg_hi(args[k])] is Comma && arg_lo(args[k + 1]) == arg_hi(args[k]) + 1
            &&& (args.len() > 0 ==> arg_hi(args.last()) == toks.len() || (arg_hi(args.last())
                == toks.len() - 1 && toks[toks.len() - 1] is Comma))
            &&& forall|k: int|
                0 <= k < args.len() ==> #[trigger] args[k] == str_arg_of(
                    toks,
                    arg_lo(args[k]),
                    arg_hi(args[k]),
                )
        }),
    decreases toks.len() - i,
{
    if i >= toks.len() {
    } else {
        let j = comma_from(toks, i);
        lemma_comma_from(toks, i);
        let head = str_arg_of(toks, i, j);
        assert(arg_lo(head) == i && arg_hi(head) == j);
        let args = parse_args(toks, i)->Ok_0;
        let rest = parse_args(toks, j + 1)->Ok_0;
        assert(args == seq![head] + rest);
        if j + 1 <= toks.len() {
            lemma_parse_args_shape(toks, j + 1);
        } else {
            assert(rest =~= Seq::<StrArgV>::empty());
        }
        assert(args[0] == head);
        assert forall|k: int| 1 <= k < args.len() implies args[k] == rest[k - 1] by {}
        if rest.len() > 0 {
            assert(arg_lo(rest[0]) == j + 1);
            assert(j < toks.len());
            assert(args.last() == rest.last());
        } else {
            assert(args.last() == head);
            if j < toks.len() {
                assert(parse_args(toks, j + 1) == Ok::<_, ParseError>(rest));
                if j + 1 < toks.len() {
                    assert(rest.len() > 0);
                }
                assert(j + 1 == toks.len());
            }
        }
    }
}

/// Where an item begins, its `const` marker included.
pub open spec fn item_start(it: ItemV) -> int {
    if it.is_const {
        it.lo - 1
    } else {
        it.lo
    }
}

/// What a successful fast parse looks like: the items' token spans stand
/// in order, begin at the start, are separated by single commas, cover
/// the input to its end but for one trailing comma, hold no top-level
/// comma themselves, and an item marked `const` begins with the `const`
/// keyword.
pub proof fn lemma_parse_fast_shape(toks: Seq<Tok>, i: int)
    requires
        0 <= i <= toks.len(),
        parse_fast(toks, i) is Ok,
    ensures
        ({
            let items = parse_fast(toks, i)->Ok_0;
            &&& (items.len() == 0 ==> i == toks.len())
            &&& (items.len() > 0 ==> item_start(items[0]) == i)
            &&& forall|k: int|
                0 <= k < items.len() ==> i <= item_start(#[trigger] items[k]) <= items[k].lo
                    < items[k].hi <= toks.len()
            &&& forall|k: int|
                0 <= k < items.len() ==> ((#[trigger] items[k]).is_const ==> toks[items[k].lo
                    - 1] is KwConst)
            &&& forall|k: int, j: int|
                0 <= k < items.len() && (#[trigger] items[k]).lo <= j < items[k].hi ==> !((
                #[trigger] toks[j]) is Comma)
            &&& forall|k: int|
                0 <= k < items.len() - 1 ==> (#[trigger] items[k]).hi < toks.len()
                    && toks[items[k].hi] is Comma && item_start(items[k + 1]) == items[k].hi + 1
            &&& (items.len() > 0 ==> items.last().hi == toks.len() || (items.last().hi
                == toks.len() - 1 && toks[toks.len() - 1] is Comma))
        }),
    decreases toks.len() - i,
{
    if i >= toks.len() {
    } else {
        let (head, j) = parse_item(toks, i)->Ok_0;
        if toks[i] is KwConst {
            lemma_comma_from(toks, i + 1);
            assert(head == ItemV { is_const: true, lo: i + 1, hi: j });
            assert(!(toks[i + 1] is Comma));
            assert(head.lo < head.hi);
        } else {
            lemma_comma_from(toks, i);
            assert(head == ItemV { is_const: false, lo: i, hi: j });
            assert(head.lo < head.hi);
        }
        assert(item_start(head) == i && head.hi == j);
        let items = parse_fast(toks, i)->Ok_0;
        let rest = parse_fast(toks, j + 1)->Ok_0;
        assert(items == seq![head] + rest);
        if j + 1 <= toks.len() {
            lemma_parse_fast_shape(toks, j + 1);
        } else {
            assert(rest =~= Seq::<ItemV>::empty());
        }
        assert(items[0] == head);
        assert forall|k: int| 1 <= k < items.len() implies items[k] == rest[k - 1] by {}
        if rest.len() > 0 {
            assert(item_start(rest[0]) == j + 1);
            assert(j < toks.len());
            assert(items.last() == rest.last());
        } else {
            assert(items.last() == head);
            if j < toks.len() {
                assert(parse_fast(toks, j + 1) == Ok::<_, ParseError>(rest));
                if j + 1 < toks.len() {
                    assert(rest.len() > 0);
                }
                assert(j + 1 == toks.len());
            }
        }
    }
}

/// Whether a token is a comma.
fn is_comma(t: &Tok) -> (b: bool)
    ensures
        b == (*t is Comma),
{
    matches!(t, Tok::Comma)
}

/// Whether a token is the `strict` marker.
fn is_kw_strict(t: &Tok) -> (b: bool)
    ensures
        b == (*t is KwStrict),
{
    matches!(t, Tok::KwStrict)
}

/// Whether a token is a colon.
fn is_colon(t: &Tok) -> (b: bool)
    ensures
        b == (*t is Colon),
{
    matches!(t, Tok::Colon)
}

/// Whether a token is the `const` marker.
fn is_kw_const(t: &Tok) -> (b: bool)
    ensures
        b == (*t is KwConst),
{
    matches!(t, Tok::KwConst)
}

/// Scans forward to the next top-level comma.
fn find_comma(toks: &Vec<Tok>, i: usize) -> (j: usize)
    requires
        i <= toks@.len(),
    ensures
        j == comma_from(toks@, i as int),
        i <= j <= toks@.len(),
{
    let n = toks.len();
    let mut j = i;
    loop
        invariant
            i <= j <= n,
            n == toks@.len(),
            comma_from(toks@, i as int) == comma_from(toks@, j as int),
        ensures
            j == comma_from(toks@, i as int),
            i <= j <= n,
        decreases n - j,
    {
        if j == n {
            break;
        }
        if is_comma(&toks[j]) {
            break;
        }
        j = j + 1;
    }
    j
}

/// Builds the argument standing at tokens `lo .. hi`.
fn make_str_arg(toks: &Vec<Tok>, lo: usize, hi: usize) -> (a: StrArg)
    requires
        (lo as int) < toks@.len(),
    ensures
        a@ == str_arg_of(toks@, lo as int, hi as int),
{
    if hi > lo && hi - lo == 1 {
        if let Tok::StrLit { value } = &toks[lo] {
            return StrArg::Lit { value: value.clone(), lo };
        }
    }
    StrArg::Expr { lo, hi }
}

/// Parses the comma-separated arguments from position `i` on.
fn parse_str_args(toks: &Vec<Tok>, i: usize) -> (r: Result<Vec<StrArg>, ParseError>)
    requires
        i <= toks@.len(),
    ensures
        (match r {
            Ok(args) => parse_args(toks@, i as int) == Ok::<_, ParseError>(arg_views(args@)),
            Err(e) => parse_args(toks@, i as int) == Err::<Seq<StrArgV>, _>(e),
        }),
    decreases toks@.len() - i,
{
    if i >= toks.len() {
        let args: Vec<StrArg> = Vec::new();
        assert(arg_views(args@) =~= Seq::<StrArgV>::empty());
        return Ok(args);
    }
    if is_comma(&toks[i]) {
        return Err(ParseError::EmptyArg);
    }
    let j = find_comma(toks, i);
    let arg = make_str_arg(toks, i, j);
    let mut args: Vec<StrArg>;
    if j >= toks.len() {
        args = Vec::new();
        proof {
            assert(arg_views(args@) =~= Seq::<StrArgV>::empty());
        }
    } else {
        match parse_str_args(toks, j + 1) {
            Ok(rest) => {
                args = rest;
            },
            Err(e) => {
                return Err(e);
            },
        }
    }
    proof {
        assert(parse_args(toks@, j + 1) == Ok::<_, ParseError>(arg_views(args@)));
    }
    let ghost pre = args@;
    args.insert(0, arg);
    proof {
        assert(args@ =~= seq![arg] + pre);
        assert(arg_views(args@) =~= seq![arg@] + arg_views(pre));
    }
    Ok(args)
}

impl Item {
    /// Parses one fast-macro item at position `i`: an optional `const`
    /// marker, then the expression's tokens up to the next comma.  Returns
    /// the item and the position of the separator (or end) after it.
    pub fn parse(toks: &Vec<Tok>, i: usize) -> (r: Result<(Item, usize), ParseError>)
        requires
            (i as int) < toks@.len(),
            !(toks@[i as int] is Comma),
        ensures
            (match r {
                Ok((item, j)) => parse_item(toks@, i as int) == Ok::<_, ParseError>(
                    (item@, j as int),
                ) && i <= j <= toks@.len(),
                Err(e) => parse_item(toks@, i as int) == Err::<(ItemV, int), _>(e),
            }),
    {
        let n = toks.len();
        if is_kw_const(&toks[i]) {
            if i + 1 >= n || is_comma(&toks[i + 1]) {
                return Err(ParseError::EmptyArg);
            }
            let j = find_comma(toks, i + 1);
            Ok((Item { is_const: true, lo: i + 1, hi: j }, j))
        } else {
            let j = find_comma(toks, i);
            Ok((Item { is_const: false, lo: i, hi: j }, j))
        }
    }
}

/// Parses the comma-separated fast-macro items from position `i` on.
fn parse_fast_items(toks: &Vec<Tok>, i: usize) -> (r: Result<Vec<Item>, ParseError>)
    requires
        i <= toks@.len(),
    ensures
        (match r {
            Ok(items) => parse_fast(toks@, i as int) == Ok::<_, ParseError>(item_views(items@)),
            Err(e) => parse_fast(toks@, i as int) == Err::<Seq<ItemV>, _>(e),
        }),
    decreases toks@.len() - i,
{
    if i >= toks.len() {
        let items: Vec<Item> = Vec::new();
        assert(item_views(items@) =~= Seq::<ItemV>::empty());
        return Ok(items);
    }
    if is_comma(&toks[i]) {
        return Err(ParseError::EmptyArg);
    }
    let (item, j) = match Item::parse(toks, i) {
        Ok(p) => p,
        Err(e) => {
            return Err(e);
        },
    };
    let mut items: Vec<Item>;
    if j >= toks.len() {
        items = Vec::new();
        proof {
            assert(item_views(items@) =~= Seq::<ItemV>::empty());
        }
    } else {
        match parse_fast_items(toks, j + 1) {
            Ok(rest) => {
                items = rest;
            },
            Err(e) => {
                return Err(e);
            },
        }
    }
    proof {
        assert(parse_fast(toks@, j + 1) == Ok::<_, ParseError>(item_views(items@)));
    }
    let ghost pre = items@;
    items.insert(0, item);
    proof {
        assert(items@ =~= seq![item] + pre);
        assert(item_views(items@) =~= seq![item@] + item_views(pre));
    }
    Ok(items)
}

impl ConcatStringsParser {
    /// Parses the whole input of the string macro: an optional `strict :`
    /// prefix, then comma-separated arguments.
    pub fn parse(toks: &Vec<Tok>) -> (r: Result<ConcatStringsParser, ParseError>)
        ensures
            (match r {
                Ok(p) => parse_concat_strings(toks@) == Ok::<_, ParseError>(
                    (arg_views(p.args@), p.strict),
                ),
                Err(e) => parse_concat_strings(toks@) == Err::<(Seq<StrArgV>, bool), _>(e),
            }),
    {
        let mut start: usize = 0;
        let mut strict = false;
        if toks.len() > 0 && is_kw_strict(&toks[0]) {
            if toks.len() > 1 && is_colon(&toks[1]) {
                start = 2;
                strict = true;
            } else {
                return Err(ParseError::ExpectedColon);
            }
        }
        match parse_str_args(toks, start) {
            Ok(args) => Ok(ConcatStringsParser { args, strict }),
            Err(e) => Err(e),
        }
    }
}

impl ConcatPathsParser {
    /// Parses the whole input of the path macro: comma-separated arguments.
    pub fn parse(toks: &Vec<Tok>) -> (r: Result<ConcatPathsParser, ParseError>)
        ensures
            (match r {
                Ok(p) => parse_args(toks@, 0) == Ok::<_, ParseError>(arg_views(p.args@)),
                Err(e) => parse_args(toks@, 0) == Err::<Seq<StrArgV>, _>(e),
            }),
    {
        match parse_str_args(toks, 0) {
            Ok(args) => Ok(ConcatPathsParser { args }),
            Err(e) => Err(e),
        }
    }
}

impl FastConcatParser {
    /// Parses the whole input of the fast macro: comma-separated items,
    /// each an expression with an optional `const` marker.
    pub fn parse(toks: &Vec<Tok>) -> (r: Result<FastConcatParser, ParseError>)
        ensures
            (match r {
                Ok(p) => parse_fast(toks@, 0) == Ok::<_, ParseError>(item_views(p.items@)),
                Err(e) => parse_fast(toks@, 0) == Err::<Seq<ItemV>, _>(e),
            }),
    {
        match parse_fast_items(toks, 0) {
            Ok(items) => Ok(FastConcatParser { items }),
            Err(e) => Err(e),
        }
    }
}

} // verus!
