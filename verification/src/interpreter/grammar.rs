//! The grammar as the tokens that spell each syntax tree, and the laws that
//! tie the parser to it: a sequence of tokens parses to a tree if and only if
//! it starts with the tokens that spell the tree.

use crate::interpreter::lexer::{LexError, LexItem, TokenModel};
use crate::interpreter::parser::{
    expect_end, expect_token, lemma_parse_consumes, parse_args, parse_bound, parse_definition,
    parse_expr, parse_ident, parse_params, parse_top_level_definition, parse_top_level_expr,
    starts_function, DefinitionModel, ExprModel, ParseErrorModel,
};
use vstd::prelude::*;

verus! {

/// The tokens that spell the expression `e`.
pub open spec fn expr_tokens(e: ExprModel) -> Seq<TokenModel>
    decreases e, 0nat,
{
    match e {
        ExprModel::Nil => seq![TokenModel::Nil],
        ExprModel::Int(i) => seq![TokenModel::Int(i)],
        ExprModel::Ident(name) => seq![TokenModel::Identifier(name)],
        ExprModel::Call(head, args) => seq![TokenModel::OpenParens, TokenModel::Identifier(head)]
            + args_tokens(args, 0) + seq![TokenModel::CloseParens],
    }
}

/// The tokens that spell the expressions in `args` from the place `from` on,
/// one after the other.
pub open spec fn args_tokens(args: Seq<ExprModel>, from: nat) -> Seq<TokenModel>
    decreases args, args.len() - from,
{
    if from >= args.len() {
        Seq::empty()
    } else {
        expr_tokens(args[from as int]) + args_tokens(args, from + 1)
    }
}

/// The tokens that spell the parameter names `params`, one after the other.
pub open spec fn params_tokens(params: Seq<Seq<char>>) -> Seq<TokenModel> {
    Seq::new(params.len(), |i: int| TokenModel::Identifier(params[i]))
}

/// The tokens that spell the definition `def`.
pub open spec fn definition_tokens(def: DefinitionModel) -> Seq<TokenModel> {
    match def {
        DefinitionModel::Value(name, expr) => seq![TokenModel::Identifier(name), TokenModel::Is]
            + expr_tokens(expr),
        DefinitionModel::Func(name, params, body) => seq![
            TokenModel::Identifier(name),
            TokenModel::Is,
            TokenModel::Identifier("fn"@),
            TokenModel::OpenParens,
        ] + params_tokens(params) + seq![TokenModel::CloseParens] + expr_tokens(body),
    }
}

/// The tokens `ts` as the items of a lexer that met no error.
pub open spec fn ok_items(ts: Seq<TokenModel>) -> Seq<LexItem> {
    Seq::new(ts.len(), |i: int| Ok(ts[i]))
}

/// The items of two sequences of tokens, one after the other.
pub proof fn lemma_ok_items_add(a: Seq<TokenModel>, b: Seq<TokenModel>)
    ensures
        ok_items(a + b) == ok_items(a) + ok_items(b),
{
    assert(ok_items(a + b) =~= ok_items(a) + ok_items(b));
}

/// An expression is spelled with at least one token, and the first is none
/// that closes a call.
pub proof fn lemma_expr_tokens_start(e: ExprModel)
    ensures
        expr_tokens(e).len() > 0,
        expr_tokens(e)[0] != TokenModel::CloseParens,
        expr_tokens(e)[0] != TokenModel::Is,
{
}

/// What spells an expression parses to that expression, and what follows is left.
pub proof fn lemma_parse_expr_complete(e: ExprModel, rest: Seq<LexItem>)
    ensures
        parse_expr(ok_items(expr_tokens(e)) + rest) == (
            Ok::<ExprModel, ParseErrorModel>(e),
            rest,
        ),
    decreases e, 0nat,
{
    let ts = ok_items(expr_tokens(e)) + rest;
    match e {
        ExprModel::Call(head, args) => {
            let close = seq![Ok::<TokenModel, LexError>(TokenModel::CloseParens)];
            let tail = ok_items(args_tokens(args, 0)) + close + rest;
            assert(ts[0] == Ok::<TokenModel, LexError>(TokenModel::OpenParens));
            assert(ts[1] == Ok::<TokenModel, LexError>(TokenModel::Identifier(head)));
            assert(ts.skip(1)[0] == ts[1]);
            assert(ts.skip(1).skip(1) =~= tail);
            lemma_parse_args_complete(args, 0, rest);
            assert(args.skip(0) =~= args);
        },
        _ => {
            assert(ts.skip(1) =~= rest);
        },
    }
}

/// What spells a list of arguments and closes the call parses to those arguments.
pub proof fn lemma_parse_args_complete(args: Seq<ExprModel>, from: nat, rest: Seq<LexItem>)
    requires
        from <= args.len(),
    ensures
        parse_args(
            ok_items(args_tokens(args, from)) + seq![
                Ok::<TokenModel, LexError>(TokenModel::CloseParens),
            ] + rest,
        ) == (Ok::<Seq<ExprModel>, ParseErrorModel>(args.skip(from as int)), rest),
    decreases args, args.len() - from,
{
    let close = seq![Ok::<TokenModel, LexError>(TokenModel::CloseParens)];
    let ts = ok_items(args_tokens(args, from)) + close + rest;
    if from == args.len() {
        assert(ts[0] == close[0]);
        assert(ts.skip(1) =~= rest);
        assert(args.skip(from as int) =~= Seq::<ExprModel>::empty());
    } else {
        let first = args[from as int];
        let after = ok_items(args_tokens(args, from + 1)) + close + rest;
        lemma_expr_tokens_start(first);
        lemma_ok_items_add(expr_tokens(first), args_tokens(args, from + 1));
        assert(ts =~= ok_items(expr_tokens(first)) + after);
        assert(ts[0] == Ok::<TokenModel, LexError>(expr_tokens(first)[0]));
        lemma_parse_expr_complete(first, after);
        lemma_parse_args_complete(args, from + 1, rest);
        assert(seq![first] + args.skip(from as int + 1) =~= args.skip(from as int));
    }
}

/// The tokens of a list from a place on are those of what the list holds from there.
pub proof fn lemma_args_tokens_shift(front: Seq<ExprModel>, back: Seq<ExprModel>, from: nat)
    requires
        from <= back.len(),
    ensures
        args_tokens(front + back, front.len() + from) == args_tokens(back, from),
    decreases back.len() - from,
{
    let all = front + back;
    if from < back.len() {
        assert(all[front.len() as int + from as int] == back[from as int]);
        lemma_args_tokens_shift(front, back, from + 1);
    }
}

/// What parses to an expression starts with the tokens that spell it, and
/// what parses to the arguments of a call starts with the tokens that spell
/// them and the closing parenthesis; what is left follows them.
pub proof fn lemma_parse_sound(ts: Seq<LexItem>)
    ensures
        parse_expr(ts).0 is Ok ==> ts == ok_items(expr_tokens(parse_expr(ts).0->Ok_0))
            + parse_expr(ts).1,
        parse_args(ts).0 is Ok ==> ts == ok_items(args_tokens(parse_args(ts).0->Ok_0, 0)) + seq![
            Ok::<TokenModel, LexError>(TokenModel::CloseParens),
        ] + parse_args(ts).1,
    decreases ts.len(),
{
    let close = seq![Ok::<TokenModel, LexError>(TokenModel::CloseParens)];
    if ts.len() > 0 {
        lemma_parse_consumes(ts);
        if parse_expr(ts).0 is Ok {
            let e = parse_expr(ts).0->Ok_0;
            let rest = parse_expr(ts).1;
            match e {
                ExprModel::Call(head, args) => {
                    let inner = ts.skip(1).skip(1);
                    assert(parse_ident(ts.skip(1)).1 == inner);
                    lemma_parse_sound(inner);
                    assert(ts =~= ok_items(expr_tokens(e)) + rest) by {
                        lemma_ok_items_add(
                            seq![TokenModel::OpenParens, TokenModel::Identifier(head)]
                                + args_tokens(args, 0),
                            seq![TokenModel::CloseParens],
                        );
                        lemma_ok_items_add(
                            seq![TokenModel::OpenParens, TokenModel::Identifier(head)],
                            args_tokens(args, 0),
                        );
                        assert(ts[0] == Ok::<TokenModel, LexError>(TokenModel::OpenParens));
                        assert(ts[1] == ts.skip(1)[0]);
                        assert(ts =~= seq![ts[0], ts[1]] + inner);
                        assert(ok_items(seq![TokenModel::CloseParens]) =~= close);
                        assert(ok_items(
                            seq![TokenModel::OpenParens, TokenModel::Identifier(head)],
                        ) =~= seq![ts[0], ts[1]]);
                    }
                },
                _ => {
                    assert(ts =~= ok_items(expr_tokens(e)) + rest);
                },
            }
        }
        if parse_args(ts).0 is Ok {
            let list = parse_args(ts).0->Ok_0;
            let rest = parse_args(ts).1;
            if ts[0] == Ok::<TokenModel, LexError>(TokenModel::CloseParens) {
                assert(list =~= Seq::<ExprModel>::empty());
                assert(ts =~= ok_items(args_tokens(list, 0)) + close + rest);
            } else {
                let first = parse_expr(ts).0->Ok_0;
                let after = parse_expr(ts).1;
                let others = parse_args(after).0->Ok_0;
                lemma_parse_sound(after);
                assert(list == seq![first] + others);
                lemma_args_tokens_shift(seq![first], others, 0);
                assert(args_tokens(list, 0) == expr_tokens(first) + args_tokens(list, 1));
                lemma_ok_items_add(expr_tokens(first), args_tokens(others, 0));
                assert(ts =~= ok_items(args_tokens(list, 0)) + close + rest);
            }
        }
    }
}

/// A sequence of tokens is one whole expression if and only if it spells it:
/// the tokens that spell an expression parse to it, and tokens that parse to
/// an expression are those that spell it.
pub proof fn lemma_top_level_expr(ts: Seq<TokenModel>, e: ExprModel)
    ensures
        parse_top_level_expr(ok_items(ts)).0 == Ok::<ExprModel, ParseErrorModel>(e) <==> ts
            == expr_tokens(e),
{
    let items = ok_items(ts);
    if ts == expr_tokens(e) {
        lemma_parse_expr_complete(e, Seq::empty());
        assert(items + Seq::<LexItem>::empty() =~= items);
    }
    if parse_top_level_expr(items).0 == Ok::<ExprModel, ParseErrorModel>(e) {
        lemma_parse_sound(items);
        let rest = parse_expr(items).1;
        assert(rest.len() == 0);
        assert(items =~= ok_items(expr_tokens(e)));
        lemma_ok_items_same(ts, expr_tokens(e));
    }
}

/// What spells a list of parameters and closes it parses to those parameters.
pub proof fn lemma_parse_params_complete(params: Seq<Seq<char>>, rest: Seq<LexItem>)
    ensures
        parse_params(
            ok_items(params_tokens(params)) + seq![
                Ok::<TokenModel, LexError>(TokenModel::CloseParens),
            ] + rest,
        ) == (Ok::<Seq<Seq<char>>, ParseErrorModel>(params), rest),
    decreases params.len(),
{
    let close = seq![Ok::<TokenModel, LexError>(TokenModel::CloseParens)];
    let ts = ok_items(params_tokens(params)) + close + rest;
    if params.len() == 0 {
        assert(ts[0] == close[0]);
        assert(ts.skip(1) =~= rest);
        assert(params =~= Seq::<Seq<char>>::empty());
    } else {
        let others = params.drop_first();
        assert(ts[0] == Ok::<TokenModel, LexError>(TokenModel::Identifier(params[0])));
        assert(ts.skip(1) =~= ok_items(params_tokens(others)) + close + rest);
        lemma_parse_params_complete(others, rest);
        assert(seq![params[0]] + others =~= params);
    }
}

/// What parses to a list of parameters starts with the tokens that spell
/// them and the closing parenthesis; what is left follows them.
pub proof fn lemma_parse_params_sound(ts: Seq<LexItem>)
    ensures
        parse_params(ts).0 is Ok ==> ts == ok_items(params_tokens(parse_params(ts).0->Ok_0))
            + seq![Ok::<TokenModel, LexError>(TokenModel::CloseParens)] + parse_params(ts).1,
    decreases ts.len(),
{
    let close = seq![Ok::<TokenModel, LexError>(TokenModel::CloseParens)];
    if parse_params(ts).0 is Ok {
        let params = parse_params(ts).0->Ok_0;
        let rest = parse_params(ts).1;
        if ts[0] == Ok::<TokenModel, LexError>(TokenModel::CloseParens) {
            assert(params =~= Seq::<Seq<char>>::empty());
            assert(ts =~= ok_items(params_tokens(params)) + close + rest);
        } else {
            lemma_parse_params_sound(ts.skip(1));
            let others = parse_params(ts.skip(1)).0->Ok_0;
            assert(params == seq![ts[0]->Ok_0->Identifier_0] + others);
            assert(ts =~= ok_items(params_tokens(params)) + close + rest) by {
                assert(ts =~= seq![ts[0]] + ts.skip(1));
                assert(ok_items(params_tokens(params)) =~= seq![ts[0]] + ok_items(
                    params_tokens(others),
                ));
            }
        }
    }
}

/// A sequence of tokens is one whole definition if and only if it spells it.
pub proof fn lemma_top_level_definition(ts: Seq<TokenModel>, def: DefinitionModel)
    ensures
        parse_top_level_definition(ok_items(ts)).0 == Ok::<DefinitionModel, ParseErrorModel>(def)
            <==> ts == definition_tokens(def),
{
    let items = ok_items(ts);
    let none = Seq::<LexItem>::empty();
    let close = seq![Ok::<TokenModel, LexError>(TokenModel::CloseParens)];
    if ts == definition_tokens(def) {
        assert(items.skip(1).skip(1) =~= items.skip(2));
        match def {
            DefinitionModel::Value(name, expr) => {
                let bound = ok_items(expr_tokens(expr));
                assert(items[0] == Ok::<TokenModel, LexError>(TokenModel::Identifier(name)));
                assert(items[1] == Ok::<TokenModel, LexError>(TokenModel::Is));
                assert(items.skip(1)[0] == items[1]);
                assert(items.skip(2) =~= bound);
                lemma_expr_tokens_start(expr);
                if bound.len() >= 2 {
                    assert(bound[0] == Ok::<TokenModel, LexError>(expr_tokens(expr)[0]));
                    assert(bound[1] == Ok::<TokenModel, LexError>(expr_tokens(expr)[1]));
                }
                assert(!starts_function(bound));
                lemma_parse_expr_complete(expr, none);
                assert(bound + none =~= bound);
            },
            DefinitionModel::Func(name, params, body) => {
                let spelled = ok_items(expr_tokens(body));
                let after_open = ok_items(params_tokens(params)) + close + spelled;
                assert(items[0] == Ok::<TokenModel, LexError>(TokenModel::Identifier(name)));
                assert(items[1] == Ok::<TokenModel, LexError>(TokenModel::Is));
                assert(items[2] == Ok::<TokenModel, LexError>(TokenModel::Identifier("fn"@)));
                assert(items[3] == Ok::<TokenModel, LexError>(TokenModel::OpenParens));
                assert(items.skip(1)[0] == items[1]);
                assert(items.skip(2)[0] == items[2]);
                assert(items.skip(2)[1] == items[3]);
                assert(items.skip(2).skip(2) =~= after_open);
                lemma_parse_params_complete(params, spelled);
                lemma_parse_expr_complete(body, none);
                assert(spelled + none =~= spelled);
            },
        }
    }
    if parse_top_level_definition(items).0 == Ok::<DefinitionModel, ParseErrorModel>(def) {
        let after_is = items.skip(1).skip(1);
        assert(after_is =~= items.skip(2));
        assert(items[1] == items.skip(1)[0]);
        assert(parse_definition(items).0 == Ok::<DefinitionModel, ParseErrorModel>(def));
        assert(parse_definition(items) == parse_bound(def.name(), after_is));
        assert(expect_end(parse_definition(items).1).0 is Ok);
        assert(parse_definition(items).1.len() == 0);
        let head = seq![items[0], items[1]];
        assert(items =~= head + after_is);
        match def {
            DefinitionModel::Value(name, expr) => {
                assert(!starts_function(after_is));
                lemma_parse_sound(after_is);
                assert(after_is =~= ok_items(expr_tokens(expr)));
                assert(items =~= ok_items(definition_tokens(def)));
            },
            DefinitionModel::Func(name, params, body) => {
                assert(starts_function(after_is));
                let after_open = after_is.skip(2);
                lemma_parse_params_sound(after_open);
                let after_params = parse_params(after_open).1;
                lemma_parse_sound(after_params);
                assert(after_params =~= ok_items(expr_tokens(body)));
                assert(after_is =~= seq![after_is[0], after_is[1]] + after_open);
                assert(items =~= ok_items(definition_tokens(def)));
            },
        }
        lemma_ok_items_same(ts, definition_tokens(def));
    }
}

/// Sequences of tokens with the same items are the same.
pub proof fn lemma_ok_items_same(a: Seq<TokenModel>, b: Seq<TokenModel>)
    requires
        ok_items(a) == ok_items(b),
    ensures
        a == b,
{
    assert(a.len() == ok_items(a).len());
    assert(b.len() == ok_items(b).len());
    assert forall|i: int| 0 <= i < a.len() implies a[i] == b[i] by {
        assert(ok_items(a)[i] == Ok::<TokenModel, LexError>(a[i]));
        assert(ok_items(b)[i] == Ok::<TokenModel, LexError>(b[i]));
    }
    assert(a =~= b);
}

} // verus!
