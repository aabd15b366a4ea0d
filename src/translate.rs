use vstd::prelude::*;
use crate::function::{function_views, parse_module, Function, FunctionModel, Module};
use crate::js::{block_views, function_js, guards_bound, Block, BlockModel, FunctionItem, FunctionItemModel};
use crate::tokens::{Error, FromTokens, Tokens};
use crate::write::{join, push_str};

verus! {

/// Why a source text could not be translated.
#[derive(Debug, PartialEq, Eq)]
pub enum TranslateError {
    /// The text does not parse.
    Parse(Error),
    /// A clause of the named function has a literal pattern at an argument
    /// index that no parameter stands at, so there is nothing to test.
    UnboundGuard(String),
}

pub open spec fn item_views(items: Seq<FunctionItem>) -> Seq<FunctionItemModel> {
    items.map_values(|i: FunctionItem| i@)
}

/// The block that a clause becomes.
pub open spec fn block_of(f: FunctionModel) -> BlockModel {
    BlockModel { patterns: f.patterns, body: f.body }
}

/// The index of the first function named `name`, if any.
pub open spec fn index_of_name(items: Seq<FunctionItemModel>, name: Seq<char>) -> Option<int>
    decreases items.len(),
{
    if items.len() == 0 {
        None
    } else {
        match index_of_name(items.drop_last(), name) {
            Some(j) => Some(j),
            None => if items.last().ident == name {
                Some(items.len() - 1)
            } else {
                None
            },
        }
    }
}

pub proof fn lemma_index_of_name(items: Seq<FunctionItemModel>, name: Seq<char>)
    ensures
        index_of_name(items, name) matches Some(j) ==> 0 <= j < items.len() && items[j].ident == name,
        index_of_name(items, name) is None ==> forall|j: int| 0 <= j < items.len() ==> #[trigger] items[j].ident != name,
    decreases items.len(),
{
    if items.len() > 0 {
        lemma_index_of_name(items.drop_last(), name);
        assert forall|j: int| 0 <= j < items.len() - 1 implies #[trigger] items[j] == items.drop_last()[j] by {}
    }
}

/// The clauses grouped by name: one function per distinct name, in the order
/// the names first appear, each with the clauses of its name in source order.
pub open spec fn grouped(funcs: Seq<FunctionModel>) -> Seq<FunctionItemModel>
    decreases funcs.len(),
{
    if funcs.len() == 0 {
        Seq::empty()
    } else {
        let items = grouped(funcs.drop_last());
        let f = funcs.last();
        match index_of_name(items, f.ident) {
            Some(j) => items.update(
                j,
                FunctionItemModel { ident: items[j].ident, blocks: items[j].blocks.push(block_of(f)) },
            ),
            None => items.push(FunctionItemModel { ident: f.ident, blocks: seq![block_of(f)] }),
        }
    }
}

/// Groups clauses by name: see `grouped`.
pub fn group_clauses(funcs: Vec<Function>) -> (r: Vec<FunctionItem>)
    ensures
        item_views(r@) == grouped(function_views(funcs@)),
{
    let ghost all = function_views(funcs@);
    let ghost mut n: int = 0;
    let mut rest = funcs;
    let mut items: Vec<FunctionItem> = Vec::new();
    while rest.len() > 0
        invariant
            0 <= n <= all.len(),
            all.len() == n + rest.len(),
            function_views(rest@) == all.subrange(n, all.len() as int),
            item_views(items@) == grouped(all.take(n)),
        decreases rest.len(),
    {
        let ghost remaining = rest@;
        let func = rest.remove(0);
        assert(all[n] == func@) by {
            assert(function_views(remaining)[0] == all.subrange(n, all.len() as int)[0]);
        }
        let ghost views = item_views(items@);
        let mut found: Option<usize> = None;
        let mut j: usize = 0;
        while j < items.len()
            invariant
                j <= items.len(),
                views == item_views(items@),
                match found {
                    Some(x) => index_of_name(views.take(j as int), func@.ident) == Some(x as int),
                    None => index_of_name(views.take(j as int), func@.ident) is None,
                },
            decreases items.len() - j,
        {
            assert(views.take(j + 1).drop_last() =~= views.take(j as int));
            if found.is_none() && items[j].ident == func.ident {
                found = Some(j);
            }
            j = j + 1;
        }
        assert(views.take(j as int) =~= views);
        proof {
            lemma_index_of_name(views, func@.ident);
        }
        let Function { ident, patterns, stmt } = func;
        let block = Block { patterns, stmt };
        match found {
            Some(j) => {
                let mut item = items.remove(j);
                item.blocks.push(block);
                items.insert(j, item);
                assert(block_views(item.blocks@) =~= views[j as int].blocks.push(block_of(all[n])));
                assert(item_views(items@) =~= views.update(
                    j as int,
                    FunctionItemModel { ident: views[j as int].ident, blocks: views[j as int].blocks.push(block_of(all[n])) },
                ));
            },
            None => {
                let mut blocks: Vec<Block> = Vec::new();
                blocks.push(block);
                let ghost before = items@;
                items.push(FunctionItem { ident, blocks });
                assert(block_views(blocks@) =~= seq![block_of(all[n])]);
                assert(item_views(items@) =~= item_views(before).push(
                    FunctionItemModel { ident: all[n].ident, blocks: seq![block_of(all[n])] },
                ));
            },
        }
        assert(all.take(n + 1).drop_last() =~= all.take(n));
        proof {
            n = n + 1;
        }
        assert(function_views(rest@) =~= function_views(remaining).drop_first());
    }
    assert(all.take(n) =~= all);
    items
}

/// The script text of a program: its functions, one per line.
pub open spec fn program_js(items: Seq<FunctionItemModel>) -> Seq<char> {
    join(items.map_values(|f: FunctionItemModel| function_js(f)), "\n"@)
}

/// Translates a source text: parses its clauses, groups them by name and
/// writes one function per name. No text comes out of input that fails.
pub fn translate(src: &str) -> (r: Result<String, TranslateError>)
    ensures
        match parse_module(src@, 0).0 {
            Err(e) => r == Err::<String, TranslateError>(TranslateError::Parse(e)),
            Ok(funcs) => {
                let items = grouped(funcs);
                if forall|i: int| 0 <= i < items.len() ==> guards_bound(#[trigger] items[i]) {
                    r matches Ok(out) && out@ == program_js(items)
                } else {
                    exists|i: int|
                        {
                            &&& 0 <= i < items.len()
                            &&& !guards_bound(#[trigger] items[i])
                            &&& forall|k: int| 0 <= k < i ==> guards_bound(#[trigger] items[k])
                            &&& (r matches Err(TranslateError::UnboundGuard(name)) && name@ == items[i].ident)
                        }
                }
            },
        },
{
    let mut tokens = Tokens::new(src);
    let module = match Module::from_tokens(&mut tokens) {
        Ok(module) => module,
        Err(e) => {
            return Err(TranslateError::Parse(e));
        },
    };
    let ghost funcs = module@;
    let items = group_clauses(module.funcs);
    let ghost views = item_views(items@);
    let mut i: usize = 0;
    while i < items.len()
        invariant
            i <= items.len(),
            views == item_views(items@),
            views == grouped(funcs),
            parse_module(src@, 0).0 == Ok::<Seq<FunctionModel>, Error>(funcs),
            forall|k: int| 0 <= k < i ==> guards_bound(#[trigger] views[k]),
        decreases items.len() - i,
    {
        if !items[i].guards_resolve() {
            let name = items[i].ident.clone();
            let r = Err(TranslateError::UnboundGuard(name));
            assert(r matches Err(TranslateError::UnboundGuard(name)) && name@ == views[i as int].ident);
            return r;
        }
        i = i + 1;
    }
    let ghost texts = views.map_values(|f: FunctionItemModel| function_js(f));
    let mut out = String::new();
    let mut i: usize = 0;
    while i < items.len()
        invariant
            i <= items.len(),
            views == item_views(items@),
            views == grouped(funcs),
            parse_module(src@, 0).0 == Ok::<Seq<FunctionModel>, Error>(funcs),
            texts == views.map_values(|f: FunctionItemModel| function_js(f)),
            forall|k: int| 0 <= k < items.len() ==> guards_bound(#[trigger] views[k]),
            out@ == join(texts.take(i as int), "\n"@),
        decreases items.len() - i,
    {
        if i > 0 {
            push_str(&mut out, "\n");
        }
        assert(guards_bound(views[i as int]));
        let ghost before = out@;
        items[i].to_js(&mut out);
        assert(texts.take(i + 1).drop_last() =~= texts.take(i as int));
        proof {
            if i == 0 {
                assert(out@ =~= join(texts.take(1), "\n"@));
            } else {
                assert(out@ =~= join(texts.take(i + 1), "\n"@));
            }
        }
        i = i + 1;
    }
    assert(texts.take(i as int) =~= texts);
    Ok(out)
}

} // verus!
