use vstd::prelude::*;
use crate::expression::ExprModel;
use crate::function::{pattern_views, return_js, Pattern, PatternModel, Statement};
use crate::write::{join, push_str, Write};

verus! {

/// One clause of a generated function: the patterns that guard it and the
/// statement it runs.
pub struct Block {
    pub patterns: Vec<Pattern>,
    pub stmt: Statement,
}

/// The mathematical value of a `Block`.
pub struct BlockModel {
    pub patterns: Seq<PatternModel>,
    pub body: ExprModel,
}

impl View for Block {
    type V = BlockModel;

    open spec fn view(&self) -> BlockModel {
        BlockModel { patterns: pattern_views(self.patterns@), body: self.stmt@ }
    }
}

pub open spec fn block_views(blocks: Seq<Block>) -> Seq<BlockModel> {
    blocks.map_values(|b: Block| b@)
}

/// A function of the target language, made of the clauses of one name.
pub struct FunctionItem {
    pub ident: String,
    pub blocks: Vec<Block>,
}

/// The mathematical value of a `FunctionItem`.
pub struct FunctionItemModel {
    pub ident: Seq<char>,
    pub blocks: Seq<BlockModel>,
}

impl View for FunctionItem {
    type V = FunctionItemModel;

    open spec fn view(&self) -> FunctionItemModel {
        FunctionItemModel { ident: self.ident@, blocks: block_views(self.blocks@) }
    }
}

pub open spec fn string_views(strings: Seq<String>) -> Seq<Seq<char>> {
    strings.map_values(|s: String| s@)
}

/// The names that the name patterns among `patterns` bind, in order.
pub open spec fn names_in(patterns: Seq<PatternModel>) -> Seq<Seq<char>>
    decreases patterns.len(),
{
    if patterns.len() == 0 {
        Seq::empty()
    } else {
        names_in(patterns.drop_last()) + match patterns.last() {
            PatternModel::Ident(name) => seq![name],
            PatternModel::Literal(_) => Seq::empty(),
        }
    }
}

/// The names bound in all blocks, block after block.
pub open spec fn bound_names(blocks: Seq<BlockModel>) -> Seq<Seq<char>>
    decreases blocks.len(),
{
    if blocks.len() == 0 {
        Seq::empty()
    } else {
        bound_names(blocks.drop_last()) + names_in(blocks.last().patterns)
    }
}

/// Each name once, in the order of first appearance.
pub open spec fn first_seen(names: Seq<Seq<char>>) -> Seq<Seq<char>>
    decreases names.len(),
{
    if names.len() == 0 {
        Seq::empty()
    } else {
        let seen = first_seen(names.drop_last());
        if seen.contains(names.last()) {
            seen
        } else {
            seen.push(names.last())
        }
    }
}

/// The parameters of a function: the names its clauses bind, each once, in
/// the order they first appear.
pub open spec fn params_of(blocks: Seq<BlockModel>) -> Seq<Seq<char>> {
    first_seen(bound_names(blocks))
}

/// One equality test per literal pattern, in order: the parameter at the
/// pattern's index against the literal's digits.
pub open spec fn guards(params: Seq<Seq<char>>, patterns: Seq<PatternModel>) -> Seq<Seq<char>>
    decreases patterns.len(),
{
    if patterns.len() == 0 {
        Seq::empty()
    } else {
        guards(params, patterns.drop_last()) + match patterns.last() {
            PatternModel::Literal(lit) => seq![params[patterns.len() - 1] + " == "@ + lit.digits()],
            PatternModel::Ident(_) => Seq::empty(),
        }
    }
}

/// A block without literal patterns returns at once; one with them returns
/// inside an `if` whose tests are joined by `&&`.
pub open spec fn block_js(params: Seq<Seq<char>>, b: BlockModel) -> Seq<char> {
    let tests = guards(params, b.patterns);
    if tests.len() == 0 {
        return_js(b.body)
    } else {
        "if ("@ + join(tests, " && "@) + "){"@ + return_js(b.body) + "}"@
    }
}

/// The blocks one after the other, with no `else` between them.
pub open spec fn blocks_js(params: Seq<Seq<char>>, blocks: Seq<BlockModel>) -> Seq<char>
    decreases blocks.len(),
{
    if blocks.len() == 0 {
        Seq::empty()
    } else {
        blocks_js(params, blocks.drop_last()) + block_js(params, blocks.last())
    }
}

/// The script text of a function: its name, its parameters separated by
/// commas, and its blocks in order.
pub open spec fn function_js(f: FunctionItemModel) -> Seq<char> {
    let params = params_of(f.blocks);
    "function "@ + f.ident + "("@ + join(params, ","@) + "){"@ + blocks_js(params, f.blocks) + "}"@
}

/// Every literal pattern stands at an index that has a parameter.
pub open spec fn guards_bound(f: FunctionItemModel) -> bool {
    forall|b: int, i: int|
        0 <= b < f.blocks.len() && 0 <= i < f.blocks[b].patterns.len()
            && (#[trigger] f.blocks[b].patterns[i]) is Literal ==> i < params_of(f.blocks).len()
}

/// Whether `names` holds `name`.
fn contains(names: &Vec<String>, name: &String) -> (r: bool)
    ensures
        r == string_views(names@).contains(name@),
{
    let mut j: usize = 0;
    while j < names.len()
        invariant
            j <= names.len(),
            forall|k: int| 0 <= k < j ==> names@[k]@ != name@,
        decreases names.len() - j,
    {
        if names[j] == *name {
            assert(string_views(names@)[j as int] == name@);
            return true;
        }
        j = j + 1;
    }
    false
}

impl FunctionItem {
    /// The parameter names: see `params_of`.
    pub fn params(&self) -> (r: Vec<String>)
        ensures
            string_views(r@) == params_of(self@.blocks),
    {
        let ghost blocks = self@.blocks;
        let mut args: Vec<String> = Vec::new();
        let mut b: usize = 0;
        while b < self.blocks.len()
            invariant
                b <= self.blocks.len(),
                blocks == block_views(self.blocks@),
                string_views(args@) == first_seen(bound_names(blocks.take(b as int))),
            decreases self.blocks.len() - b,
        {
            let patterns = &self.blocks[b].patterns;
            let ghost pats = pattern_views(patterns@);
            let ghost before = bound_names(blocks.take(b as int));
            let mut k: usize = 0;
            while k < patterns.len()
                invariant
                    k <= patterns.len(),
                    pats == pattern_views(patterns@),
                    string_views(args@) == first_seen(before + names_in(pats.take(k as int))),
                decreases patterns.len() - k,
            {
                assert(pats.take(k + 1).drop_last() =~= pats.take(k as int));
                match &patterns[k] {
                    Pattern::Ident(ident) => {
                        let ghost names = before + names_in(pats.take(k as int));
                        assert((before + names_in(pats.take(k + 1))) =~= names.push(ident@));
                        assert(names.push(ident@).drop_last() =~= names);
                        if !contains(&args, ident) {
                            let ghost old_args = args@;
                            args.push(ident.clone());
                            assert(string_views(args@) =~= string_views(old_args).push(ident@));
                        }
                    },
                    Pattern::Literal(_) => {
                        assert(names_in(pats.take(k + 1)) =~= names_in(pats.take(k as int)));
                    },
                }
                k = k + 1;
            }
            assert(pats.take(k as int) =~= pats);
            assert(blocks.take(b + 1).drop_last() =~= blocks.take(b as int));
            b = b + 1;
        }
        assert(blocks.take(b as int) =~= blocks);
        args
    }

    /// Whether every literal pattern has a parameter to test: see `guards_bound`.
    pub fn guards_resolve(&self) -> (r: bool)
        ensures
            r == guards_bound(self@),
    {
        let args = self.params();
        let ghost blocks = self@.blocks;
        let mut b: usize = 0;
        while b < self.blocks.len()
            invariant
                b <= self.blocks.len(),
                blocks == block_views(self.blocks@),
                string_views(args@) == params_of(blocks),
                forall|c: int, i: int|
                    0 <= c < b && 0 <= i < blocks[c].patterns.len()
                        && (#[trigger] blocks[c].patterns[i]) is Literal ==> i < args.len(),
            decreases self.blocks.len() - b,
        {
            let patterns = &self.blocks[b].patterns;
            let mut k: usize = 0;
            while k < patterns.len()
                invariant
                    k <= patterns.len(),
                    b < self.blocks.len(),
                    blocks == block_views(self.blocks@),
                    string_views(args@) == params_of(blocks),
                    patterns == self.blocks@[b as int].patterns,
                    forall|i: int|
                        0 <= i < k && (#[trigger] blocks[b as int].patterns[i]) is Literal ==> i < args.len(),
                decreases patterns.len() - k,
            {
                match &patterns[k] {
                    Pattern::Literal(_) => {
                        if k >= args.len() {
                            assert(blocks[b as int].patterns[k as int] is Literal);
                            return false;
                        }
                    },
                    Pattern::Ident(_) => {},
                }
                k = k + 1;
            }
            b = b + 1;
        }
        true
    }

    /// Writes the function: see `function_js`.
    pub fn to_js(&self, s: &mut String)
        requires
            guards_bound(self@),
        ensures
            final(s)@ == old(s)@ + function_js(self@),
    {
        let args = self.params();
        let ghost blocks = self@.blocks;
        let ghost params = params_of(blocks);

        let mut params_text = String::new();
        let mut i: usize = 0;
        while i < args.len()
            invariant
                i <= args.len(),
                string_views(args@) == params,
                params_text@ == join(params.take(i as int), ","@),
            decreases args.len() - i,
        {
            if i > 0 {
                push_str(&mut params_text, ",");
            }
            push_str(&mut params_text, args[i].as_str());
            assert(params.take(i + 1).drop_last() =~= params.take(i as int));
            assert(params[i as int] == args@[i as int]@);
            proof {
                if i == 0 {
                    assert(params_text@ =~= join(params.take(1), ","@));
                } else {
                    assert(params_text@ =~= join(params.take(i + 1), ","@));
                }
            }
            i = i + 1;
        }
        assert(params.take(i as int) =~= params);

        let mut body = String::new();
        let mut b: usize = 0;
        while b < self.blocks.len()
            invariant
                b <= self.blocks.len(),
                blocks == block_views(self.blocks@),
                params == params_of(blocks),
                string_views(args@) == params,
                guards_bound(self@),
                body@ == blocks_js(params, blocks.take(b as int)),
            decreases self.blocks.len() - b,
        {
            let block = &self.blocks[b];
            let ghost pats = blocks[b as int].patterns;
            let mut tests = String::new();
            let mut count: usize = 0;
            let mut k: usize = 0;
            while k < block.patterns.len()
                invariant
                    k <= block.patterns.len(),
                    b < self.blocks.len(),
                    block == self.blocks@[b as int],
                    blocks == block_views(self.blocks@),
                    params == params_of(blocks),
                    string_views(args@) == params,
                    guards_bound(self@),
                    pats == blocks[b as int].patterns,
                    count == guards(params, pats.take(k as int)).len(),
                    count <= k,
                    tests@ == join(guards(params, pats.take(k as int)), " && "@),
                decreases block.patterns.len() - k,
            {
                assert(pats.take(k + 1).drop_last() =~= pats.take(k as int));
                assert(pats[k as int] == block.patterns@[k as int]@);
                match &block.patterns[k] {
                    Pattern::Literal(lit) => {
                        assert(blocks[b as int].patterns[k as int] is Literal);
                        let ghost done = guards(params, pats.take(k as int));
                        let ghost test = params[k as int] + " == "@ + lit@.digits();
                        if count > 0 {
                            push_str(&mut tests, " && ");
                        }
                        push_str(&mut tests, args[k].as_str());
                        push_str(&mut tests, " == ");
                        lit.to_js(&mut tests);
                        count = count + 1;
                        assert(guards(params, pats.take(k + 1)) =~= done.push(test));
                        assert(done.push(test).drop_last() =~= done);
                        proof {
                            if done.len() == 0 {
                                assert(tests@ =~= join(done.push(test), " && "@));
                            } else {
                                assert(tests@ =~= join(done.push(test), " && "@));
                            }
                        }
                    },
                    Pattern::Ident(_) => {
                        assert(guards(params, pats.take(k + 1)) =~= guards(params, pats.take(k as int)));
                    },
                }
                k = k + 1;
            }
            assert(pats.take(k as int) =~= pats);
            let ghost before = body@;
            assert(blocks[b as int] == block@);
            if count == 0 {
                block.stmt.to_js(&mut body);
            } else {
                push_str(&mut body, "if (");
                push_str(&mut body, tests.as_str());
                push_str(&mut body, "){");
                block.stmt.to_js(&mut body);
                push_str(&mut body, "}");
            }
            assert(blocks.take(b + 1).drop_last() =~= blocks.take(b as int));
            assert(body@ =~= before + block_js(params, blocks[b as int]));
            b = b + 1;
        }
        assert(blocks.take(b as int) =~= blocks);
        s.write_function(self.ident.as_str(), params_text.as_str(), body.as_str());
        assert(s@ =~= old(s)@ + function_js(self@));
    }
}

} // verus!
