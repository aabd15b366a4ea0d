use vstd::prelude::*;
use vstd::string::StringExecFns;

verus! {

/// Relies on String::push: the character is appended.
#[verifier::external_body]
pub(crate) fn push_char(s: &mut String, c: char)
    ensures
        final(s)@ == old(s)@.push(c),
{
    s.push(c)
}

/// Appends `t` to `s`.
pub(crate) fn push_str(s: &mut String, t: &str)
    ensures
        final(s)@ == old(s)@ + t@,
{
    s.append(t)
}

/// The parts written one after the other with `sep` between each two.
pub open spec fn join(parts: Seq<Seq<char>>, sep: Seq<char>) -> Seq<char>
    decreases parts.len(),
{
    if parts.len() == 0 {
        Seq::empty()
    } else if parts.len() == 1 {
        parts[0]
    } else {
        join(parts.drop_last(), sep) + sep + parts.last()
    }
}

/// Joining two non-empty lists is joining each and putting `sep` between.
pub proof fn lemma_join_append(a: Seq<Seq<char>>, b: Seq<Seq<char>>, sep: Seq<char>)
    requires
        a.len() >= 1,
        b.len() >= 1,
    ensures
        join(a + b, sep) == join(a, sep) + sep + join(b, sep),
    decreases b.len(),
{
    assert((a + b).drop_last() =~= if b.len() == 1 { a } else { a + b.drop_last() });
    assert((a + b).last() == b.last());
    if b.len() > 1 {
        lemma_join_append(a, b.drop_last(), sep);
        assert(join(a, sep) + sep + join(b.drop_last(), sep) + sep + b.last() =~= join(a, sep) + sep + (
        join(b.drop_last(), sep) + sep + b.last()));
    }
}

/// A buffer of script text with the two constructs that clause bodies and
/// functions are written with.
pub trait Write {
    /// The text written so far.
    spec fn text(&self) -> Seq<char>;

    /// Writes a return statement of the expression text `expr`.
    fn write_return(&mut self, expr: &str)
        ensures
            final(self).text() == old(self).text() + "return "@ + expr@ + ";"@,
    ;

    /// Writes a function declaration with the parameter text `args` and the
    /// body text `block`.
    fn write_function(&mut self, ident: &str, args: &str, block: &str)
        ensures
            final(self).text() == old(self).text() + "function "@ + ident@ + "("@ + args@ + "){"@
                + block@ + "}"@,
    ;
}

impl Write for String {
    open spec fn text(&self) -> Seq<char> {
        self@
    }

    fn write_return(&mut self, expr: &str) {
        push_str(self, "return ");
        push_str(self, expr);
        push_str(self, ";");
    }

    fn write_function(&mut self, ident: &str, args: &str, block: &str) {
        push_str(self, "function ");
        push_str(self, ident);
        push_str(self, "(");
        push_str(self, args);
        push_str(self, "){");
        push_str(self, block);
        push_str(self, "}");
    }
}

} // verus!
