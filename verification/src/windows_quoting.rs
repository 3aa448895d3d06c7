//! Windows command lines: how an argument is quoted, and how a program reads it back.
use vstd::prelude::*;
use vstd::string::*;

use crate::text::{chars_of, joined, string_of};

verus! {

/// A run of backslashes.
pub open spec fn backslashes(count: nat) -> Seq<char> {
    Seq::new(count, |i: int| '\\')
}

/// How many backslashes the text ends with.
pub open spec fn trailing(s: Seq<char>) -> nat
    decreases s.len(),
{
    if s.len() > 0 && s.last() == '\\' {
        trailing(s.drop_last()) + 1
    } else {
        0
    }
}

/// The text with a backslash before every quote, and the backslashes before a quote doubled.
pub open spec fn escaped(s: Seq<char>) -> Seq<char>
    decreases s.len(),
{
    if s.len() == 0 {
        Seq::empty()
    } else if s.last() == '"' {
        escaped(s.drop_last()) + backslashes(trailing(s.drop_last()) + 1) + seq!['"']
    } else {
        escaped(s.drop_last()).push(s.last())
    }
}

/// The text in quotes, escaped, with the backslashes before the closing quote doubled.
pub open spec fn quoted(s: Seq<char>) -> Seq<char> {
    seq!['"'] + escaped(s) + backslashes(trailing(s)) + seq!['"']
}

/// How far a program has come that reads a command line.
#[verifier::ext_equal]
pub ghost struct Reading {
    /// The arguments that are complete.
    pub done: Seq<Seq<char>>,
    /// The argument being read.
    pub current: Seq<char>,
    /// The backslashes just read, of which it is not yet known what they stand for.
    pub pending: nat,
    /// Whether a space belongs to the argument.
    pub in_quotes: bool,
    /// Whether an argument has begun.
    pub begun: bool,
}

impl Reading {
    pub open spec fn start(done: Seq<Seq<char>>) -> Self {
        Reading { done, current: Seq::empty(), pending: 0, in_quotes: false, begun: false }
    }

    /// What one more character does: a backslash stands for itself unless a quote follows the run
    /// that it is in; of such a run half remain, and the quote is literal where the run is odd.
    pub open spec fn step(self, c: char) -> Self {
        if c == '\\' {
            Reading { pending: self.pending + 1, begun: true, ..self }
        } else if c == '"' && self.pending % 2 == 1 {
            Reading {
                current: self.current + backslashes(self.pending / 2) + seq!['"'],
                pending: 0,
                begun: true,
                ..self
            }
        } else if c == '"' {
            Reading {
                current: self.current + backslashes(self.pending / 2),
                pending: 0,
                in_quotes: !self.in_quotes,
                begun: true,
                ..self
            }
        } else if (c == ' ' || c == '\t') && !self.in_quotes {
            Reading::start(self.finish())
        } else {
            Reading {
                current: self.current + backslashes(self.pending) + seq![c],
                pending: 0,
                begun: true,
                ..self
            }
        }
    }

    pub open spec fn read(self, s: Seq<char>) -> Self
        decreases s.len(),
    {
        if s.len() == 0 {
            self
        } else {
            self.read(s.drop_last()).step(s.last())
        }
    }

    /// The arguments, where the line ends here.
    pub open spec fn finish(self) -> Seq<Seq<char>> {
        if self.begun {
            self.done.push(self.current + backslashes(self.pending))
        } else {
            self.done
        }
    }
}

/// The arguments that a program reads from a command line.
pub open spec fn arguments_of(line: Seq<char>) -> Seq<Seq<char>> {
    Reading::start(Seq::empty()).read(line).finish()
}

/// The text in the form in which it is one argument of a Windows command line.
pub fn quote_windows_argument(value: &str) -> (r: String)
    ensures
        r@ == quoted(value@),
{
    let chars = chars_of(value);
    let mut out: Vec<char> = Vec::new();
    out.push('"');
    let mut slashes: usize = 0;
    let mut i: usize = 0;
    proof {
        assert(value@.take(0) =~= Seq::<char>::empty());
        assert(out@ =~= seq!['"'] + escaped(value@.take(0)));
    }
    while i < chars.len()
        invariant
            i <= chars@.len(),
            slashes <= i,
            chars@ == value@,
            slashes == trailing(value@.take(i as int)),
            out@ == seq!['"'] + escaped(value@.take(i as int)),
        decreases chars@.len() - i,
    {
        let c = chars[i];
        proof {
            assert(value@.take(i + 1).drop_last() =~= value@.take(i as int));
        }
        if c == '\\' {
            slashes = slashes + 1;
        } else {
            if c == '"' {
                push_backslashes(&mut out, slashes);
                out.push('\\');
            }
            slashes = 0;
        }
        out.push(c);
        proof {
            assert(out@ =~= seq!['"'] + escaped(value@.take(i + 1)));
        }
        i = i + 1;
    }
    proof {
        assert(value@.take(i as int) =~= value@);
    }
    push_backslashes(&mut out, slashes);
    out.push('"');
    assert(out@ =~= quoted(value@));
    string_of(&out)
}

fn push_backslashes(out: &mut Vec<char>, count: usize)
    ensures
        final(out)@ == old(out)@ + backslashes(count as nat),
{
    let ghost before = out@;
    let mut n: usize = 0;
    proof {
        assert(out@ =~= before + backslashes(0));
    }
    while n < count
        invariant
            n <= count,
            out@ == before + backslashes(n as nat),
        decreases count - n,
    {
        out.push('\\');
        proof {
            assert(out@ =~= before + backslashes((n + 1) as nat));
        }
        n = n + 1;
    }
}

proof fn lemma_read_both(start: Reading, a: Seq<char>, b: Seq<char>)
    ensures
        start.read(a + b) == start.read(a).read(b),
    decreases b.len(),
{
    if b.len() == 0 {
        assert(a + b =~= a);
    } else {
        lemma_read_both(start, a, b.drop_last());
        assert((a + b).drop_last() =~= a + b.drop_last());
    }
}

proof fn lemma_read_backslashes(start: Reading, count: nat)
    ensures
        start.read(backslashes(count)) == (Reading {
            pending: start.pending + count,
            begun: start.begun || count > 0,
            ..start
        }),
    decreases count,
{
    if count > 0 {
        lemma_read_backslashes(start, (count - 1) as nat);
        assert(backslashes(count).drop_last() =~= backslashes((count - 1) as nat));
    }
}

proof fn lemma_read_one(start: Reading, c: char)
    ensures
        start.read(seq![c]) == start.step(c),
{
    assert(seq![c].drop_last() =~= Seq::<char>::empty());
    assert(start.read(Seq::<char>::empty()) == start);
}

/// Reading an escaped text inside quotes: all of it is known but the backslashes at its end.
proof fn lemma_read_escaped(done: Seq<Seq<char>>, s: Seq<char>)
    ensures
        ({
            let start = Reading {
                done,
                current: Seq::empty(),
                pending: 0,
                in_quotes: true,
                begun: true,
            };
            let after = start.read(escaped(s));
            &&& after == (Reading {
                done,
                current: after.current,
                pending: trailing(s),
                in_quotes: true,
                begun: true,
            })
            &&& after.current + backslashes(trailing(s)) == s
        }),
    decreases s.len(),
{
    let start = Reading { done, current: Seq::empty(), pending: 0, in_quotes: true, begun: true };
    if s.len() == 0 {
        assert(Seq::<char>::empty() + backslashes(0) =~= s);
    } else {
        let init = s.drop_last();
        lemma_read_escaped(done, init);
        let t = trailing(init);
        let before = start.read(escaped(init));
        assert(init.push(s.last()) =~= s);
        if s.last() == '"' {
            let run = backslashes(t + 1);
            lemma_read_both(start, escaped(init) + run, seq!['"']);
            lemma_read_both(start, escaped(init), run);
            lemma_read_backslashes(before, t + 1);
            lemma_read_one(start.read(escaped(init) + run), '"');
            assert((2 * t + 1) % 2 == 1 && (2 * t + 1) / 2 == t);
            let after = start.read(escaped(s));
            assert(after.current + backslashes(0) =~= s);
        } else {
            lemma_read_both(start, escaped(init), seq![s.last()]);
            lemma_read_one(before, s.last());
            assert(escaped(s) =~= escaped(init) + seq![s.last()]);
            let after = start.read(escaped(s));
            if s.last() == '\\' {
                assert(backslashes(t + 1) =~= backslashes(t).push('\\'));
                assert(after.current + backslashes(t + 1) =~= s);
            } else {
                assert(after.current + backslashes(0) =~= s);
            }
        }
    }
}

proof fn lemma_read_quoted(done: Seq<Seq<char>>, s: Seq<char>)
    ensures
        Reading::start(done).read(quoted(s)) == (Reading {
            done,
            current: s,
            pending: 0,
            in_quotes: false,
            begun: true,
        }),
{
    let start = Reading::start(done);
    let open = start.step('"');
    let t = trailing(s);
    assert(open =~= Reading {
        done,
        current: Seq::empty(),
        pending: 0,
        in_quotes: true,
        begun: true,
    }) by {
        assert(Seq::<char>::empty() + backslashes(0) =~= Seq::<char>::empty());
    }
    lemma_read_both(start, seq!['"'] + escaped(s) + backslashes(t), seq!['"']);
    lemma_read_both(start, seq!['"'] + escaped(s), backslashes(t));
    lemma_read_both(start, seq!['"'], escaped(s));
    lemma_read_one(start, '"');
    lemma_read_escaped(done, s);
    let inside = open.read(escaped(s));
    lemma_read_backslashes(inside, t);
    lemma_read_one(inside.read(backslashes(t)), '"');
    assert((2 * t) % 2 == 0 && (2 * t) / 2 == t);
}

proof fn lemma_read_list(args: Seq<Seq<char>>)
    requires
        args.len() > 0,
    ensures
        Reading::start(Seq::empty()).read(joined(args.map_values(|a: Seq<char>| quoted(a)), " "@))
            == (Reading {
            done: args.drop_last(),
            current: args.last(),
            pending: 0,
            in_quotes: false,
            begun: true,
        }),
    decreases args.len(),
{
    let start = Reading::start(Seq::empty());
    let forms = args.map_values(|a: Seq<char>| quoted(a));
    reveal_strlit(" ");
    assert(" "@ =~= seq![' ']);
    if args.len() == 1 {
        lemma_read_quoted(Seq::empty(), args[0]);
        assert(args.drop_last() =~= Seq::<Seq<char>>::empty());
    } else {
        let before = args.drop_last();
        assert(forms.drop_last() =~= before.map_values(|a: Seq<char>| quoted(a)));
        lemma_read_list(before);
        let line = joined(forms.drop_last(), " "@);
        lemma_read_both(start, line + " "@, forms.last());
        lemma_read_both(start, line, " "@);
        lemma_read_one(start.read(line), ' ');
        assert(before.drop_last().push(before.last()) =~= before);
        assert(before.last() + backslashes(0) =~= before.last());
        assert(start.read(line + " "@) =~= Reading::start(before));
        lemma_read_quoted(before, args.last());
    }
}

/// A program reads from a line of quoted arguments exactly the arguments that were quoted,
/// whatever they hold.
pub proof fn law_quoted_arguments_read_back(args: Seq<Seq<char>>)
    ensures
        arguments_of(joined(args.map_values(|a: Seq<char>| quoted(a)), " "@)) == args,
{
    if args.len() == 0 {
        assert(args =~= Seq::<Seq<char>>::empty());
    } else {
        lemma_read_list(args);
        assert(args.last() + backslashes(0) =~= args.last());
        assert(args.drop_last().push(args.last()) =~= args);
    }
}

} // verus!
