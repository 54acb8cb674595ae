//! Commands and their encoding on the wire.

use vstd::prelude::*;
use vstd::string::{StrSliceExecFns, StringExecFns};

verus! {

/// A character that an argument may hold without quotes.
pub open spec fn is_plain_char(c: char) -> bool {
    ('A' <= c && c <= 'Z') || ('a' <= c && c <= 'z') || ('0' <= c && c <= '9') || c == '_'
        || c == '.' || c == '/' || c == ':' || c == '=' || c == '-'
}

/// An argument goes in quotes where it is empty or holds any other character.
pub open spec fn needs_quotes(a: Seq<char>) -> bool {
    a.len() == 0 || exists|i: int| 0 <= i < a.len() && !is_plain_char(#[trigger] a[i])
}

/// One character inside quotes: `"` and `\` get a backslash before them.
pub open spec fn escaped_char(c: char) -> Seq<char> {
    if c == '"' || c == '\\' {
        seq!['\\', c]
    } else {
        seq![c]
    }
}

/// The characters of an argument with `"` and `\` escaped.
pub open spec fn escaped(a: Seq<char>) -> Seq<char>
    decreases a.len(),
{
    if a.len() == 0 {
        Seq::empty()
    } else {
        escaped_char(a[0]) + escaped(a.skip(1))
    }
}

/// An argument as it stands on the wire.
pub open spec fn encoded_argument(a: Seq<char>) -> Seq<char> {
    if needs_quotes(a) {
        seq!['"'] + escaped(a) + seq!['"']
    } else {
        a
    }
}

/// The arguments, each after a single space.
pub open spec fn encoded_arguments(args: Seq<Seq<char>>) -> Seq<char>
    decreases args.len(),
{
    if args.len() == 0 {
        Seq::empty()
    } else {
        encoded_arguments(args.drop_last()) + seq![' '] + encoded_argument(args.last())
    }
}

/// A command line: the name, its arguments, and a line feed.
pub open spec fn encoded_command(name: Seq<char>, args: Seq<Seq<char>>) -> Seq<char> {
    name + encoded_arguments(args) + seq!['\n']
}

/// The lines of several commands, one after another.
pub open spec fn encoded_lines(cmds: Seq<(Seq<char>, Seq<Seq<char>>)>) -> Seq<char>
    decreases cmds.len(),
{
    if cmds.len() == 0 {
        Seq::empty()
    } else {
        encoded_lines(cmds.drop_last()) + encoded_command(cmds.last().0, cmds.last().1)
    }
}

/// A command list on the wire: one command alone, more inside list markers that ask for
/// a boundary after each command's response.
pub open spec fn encoded_list(cmds: Seq<(Seq<char>, Seq<Seq<char>>)>) -> Seq<char> {
    if cmds.len() == 1 {
        encoded_command(cmds[0].0, cmds[0].1)
    } else {
        "command_list_ok_begin\n"@ + encoded_lines(cmds) + "command_list_end\n"@
    }
}

proof fn lemma_escaped_append(a: Seq<char>, b: Seq<char>)
    ensures
        escaped(a + b) == escaped(a) + escaped(b),
    decreases a.len(),
{
    if a.len() == 0 {
        assert(a + b =~= b);
        assert(escaped(a) + escaped(b) =~= escaped(b));
    } else {
        assert((a + b)[0] == a[0]);
        assert((a + b).skip(1) =~= a.skip(1) + b);
        lemma_escaped_append(a.skip(1), b);
        assert(escaped(a + b) =~= escaped(a) + escaped(b));
    }
}

/// Read a quoted token's content up to its closing quote: the content and the number of
/// characters used, the closing quote included.
pub open spec fn read_quoted(s: Seq<char>) -> Option<(Seq<char>, int)>
    decreases s.len(),
{
    if s.len() == 0 {
        None
    } else if s[0] == '"' {
        Some((Seq::empty(), 1))
    } else if s[0] == '\\' && s.len() >= 2 {
        match read_quoted(s.skip(2)) {
            Some((t, n)) => Some((seq![s[1]] + t, n + 2)),
            None => None,
        }
    } else if s[0] == '\\' {
        None
    } else {
        match read_quoted(s.skip(1)) {
            Some((t, n)) => Some((seq![s[0]] + t, n + 1)),
            None => None,
        }
    }
}

/// Number of characters before the first space, or all of them.
pub open spec fn word_len(s: Seq<char>) -> int
    decreases s.len(),
{
    if s.len() == 0 || s[0] == ' ' {
        0
    } else {
        1 + word_len(s.skip(1))
    }
}

/// Read one token: a quoted string, or a word up to the next space.
pub open spec fn read_token(s: Seq<char>) -> Option<(Seq<char>, int)> {
    if s.len() > 0 && s[0] == '"' {
        match read_quoted(s.skip(1)) {
            Some((t, n)) => if n + 1 == s.len() || s[n + 1] == ' ' {
                Some((t, n + 1))
            } else {
                None
            },
            None => None,
        }
    } else if word_len(s) > 0 {
        Some((s.take(word_len(s)), word_len(s)))
    } else {
        None
    }
}

/// Read the arguments of a command line: each after a single space.
pub open spec fn read_arguments(s: Seq<char>) -> Option<Seq<Seq<char>>>
    decreases s.len(),
{
    if s.len() == 0 {
        Some(Seq::empty())
    } else if s[0] != ' ' {
        None
    } else {
        match read_token(s.skip(1)) {
            Some((t, n)) => if n > 0 && 1 + n <= s.len() {
                match read_arguments(s.skip(1 + n)) {
                    Some(ts) => Some(seq![t] + ts),
                    None => None,
                }
            } else {
                None
            },
            None => None,
        }
    }
}

/// Read a command line as the server does: the name, then its arguments, then a line feed.
pub open spec fn read_command(line: Seq<char>) -> Option<Seq<Seq<char>>> {
    if line.len() > 0 && line.last() == '\n' {
        let body = line.drop_last();
        let n = word_len(body);
        if n > 0 {
            match read_arguments(body.skip(n)) {
                Some(args) => Some(seq![body.take(n)] + args),
                None => None,
            }
        } else {
            None
        }
    } else {
        None
    }
}

/// A command name that stands as written: non-empty, with no space, quote or line feed.
pub open spec fn plain_name(name: Seq<char>) -> bool {
    name.len() > 0 && forall|i: int|
        0 <= i < name.len() ==> #[trigger] name[i] != ' ' && name[i] != '"' && name[i] != '\n'
}

proof fn lemma_read_quoted(a: Seq<char>, tail: Seq<char>)
    ensures
        read_quoted(escaped(a) + seq!['"'] + tail) == Some((a, escaped(a).len() + 1int)),
    decreases a.len(),
{
    let s = escaped(a) + seq!['"'] + tail;
    if a.len() == 0 {
        assert(s[0] == '"');
    } else {
        let c = a[0];
        lemma_read_quoted(a.skip(1), tail);
        let rest = escaped(a.skip(1)) + seq!['"'] + tail;
        if c == '"' || c == '\\' {
            assert(s =~= seq!['\\', c] + rest);
            assert(s.skip(2) =~= rest);
        } else {
            assert(s =~= seq![c] + rest);
            assert(s.skip(1) =~= rest);
        }
        assert(seq![c] + a.skip(1) =~= a);
    }
}

proof fn lemma_word_len(a: Seq<char>, tail: Seq<char>)
    requires
        forall|i: int| 0 <= i < a.len() ==> #[trigger] a[i] != ' ',
        tail.len() == 0 || tail[0] == ' ',
    ensures
        word_len(a + tail) == a.len(),
    decreases a.len(),
{
    if a.len() > 0 {
        lemma_word_len(a.skip(1), tail);
        assert((a + tail).skip(1) =~= a.skip(1) + tail);
    } else {
        assert(a + tail =~= tail);
    }
}

proof fn lemma_read_token(a: Seq<char>, tail: Seq<char>)
    requires
        tail.len() == 0 || tail[0] == ' ',
    ensures
        read_token(encoded_argument(a) + tail) == Some((a, encoded_argument(a).len() as int)),
{
    let e = encoded_argument(a);
    let s = e + tail;
    if needs_quotes(a) {
        lemma_read_quoted(a, tail);
        assert(s.skip(1) =~= escaped(a) + seq!['"'] + tail);
    } else {
        assert(a.len() > 0);
        assert(!is_plain_char(' ') && !is_plain_char('"'));
        assert forall|i: int| 0 <= i < a.len() implies #[trigger] a[i] != ' ' by {
            assert(is_plain_char(a[i]));
        }
        lemma_word_len(a, tail);
        assert(s[0] == a[0] && is_plain_char(a[0]));
        assert(s.take(a.len() as int) =~= a);
    }
}

proof fn lemma_encoded_arguments_front(a: Seq<char>, rest: Seq<Seq<char>>)
    ensures
        encoded_arguments(seq![a] + rest) == seq![' '] + encoded_argument(a) + encoded_arguments(
            rest,
        ),
    decreases rest.len(),
{
    if rest.len() == 0 {
        assert(seq![a] + rest =~= seq![a]);
        assert(seq![a].drop_last() =~= Seq::<Seq<char>>::empty());
        assert(encoded_arguments(Seq::<Seq<char>>::empty()) == Seq::<char>::empty());
        assert(encoded_arguments(seq![a]) =~= seq![' '] + encoded_argument(a) + encoded_arguments(
            rest,
        ));
    } else {
        lemma_encoded_arguments_front(a, rest.drop_last());
        assert((seq![a] + rest).drop_last() =~= seq![a] + rest.drop_last());
        assert((seq![a] + rest).last() == rest.last());
        assert(encoded_arguments(seq![a] + rest) =~= seq![' '] + encoded_argument(a)
            + encoded_arguments(rest));
    }
}

proof fn lemma_read_arguments(args: Seq<Seq<char>>)
    ensures
        read_arguments(encoded_arguments(args)) == Some(args),
    decreases args.len(),
{
    if args.len() == 0 {
        assert(encoded_arguments(args) =~= Seq::<char>::empty());
    } else {
        let a = args[0];
        let rest = args.skip(1);
        assert(seq![a] + rest =~= args);
        lemma_encoded_arguments_front(a, rest);
        lemma_read_arguments(rest);
        let tail = encoded_arguments(rest);
        let s = encoded_arguments(args);
        let e = encoded_argument(a);
        assert(tail.len() == 0 || tail[0] == ' ') by {
            if rest.len() > 0 {
                lemma_encoded_arguments_front(rest[0], rest.skip(1));
                assert(seq![rest[0]] + rest.skip(1) =~= rest);
            }
        }
        lemma_read_token(a, tail);
        assert(s.skip(1) =~= e + tail);
        assert(e.len() > 0) by {
            if !needs_quotes(a) {
                assert(a.len() > 0);
            }
        }
        assert(s.skip(1 + e.len() as int) =~= tail);
    }
}

/// A command line, read back the way the server reads it, gives the command's name and
/// each of its arguments, whatever characters the arguments hold.
pub proof fn lemma_command_round_trip(name: Seq<char>, args: Seq<Seq<char>>)
    requires
        plain_name(name),
    ensures
        read_command(encoded_command(name, args)) == Some(seq![name] + args),
{
    let line = encoded_command(name, args);
    let body = line.drop_last();
    let tail = encoded_arguments(args);
    assert(body =~= name + tail);
    assert(tail.len() == 0 || tail[0] == ' ') by {
        if args.len() > 0 {
            lemma_encoded_arguments_front(args[0], args.skip(1));
            assert(seq![args[0]] + args.skip(1) =~= args);
        }
    }
    lemma_word_len(name, tail);
    assert(body.take(name.len() as int) =~= name);
    assert(body.skip(name.len() as int) =~= tail);
    lemma_read_arguments(args);
}

/// A command: a name and its arguments.
#[derive(Clone, Debug, PartialEq, Eq)]
pub struct RawCommand {
    pub(crate) name: String,
    pub(crate) arguments: Vec<String>,
}

impl View for RawCommand {
    type V = (Seq<char>, Seq<Seq<char>>);

    closed spec fn view(&self) -> (Seq<char>, Seq<Seq<char>>) {
        (self.name@, Seq::new(self.arguments@.len(), |i: int| self.arguments@[i]@))
    }
}

/// Whether any character of `a` must be quoted.
fn argument_needs_quotes(a: &str) -> (r: bool)
    ensures
        r == needs_quotes(a@),
{
    let n = a.unicode_len();
    if n == 0 {
        return true;
    }
    let mut i: usize = 0;
    while i < n
        invariant
            i <= n == a@.len(),
            forall|j: int| 0 <= j < i ==> is_plain_char(#[trigger] a@[j]),
        decreases n - i,
    {
        let c = a.get_char(i);
        let plain = ('A' <= c && c <= 'Z') || ('a' <= c && c <= 'z') || ('0' <= c && c <= '9')
            || c == '_' || c == '.' || c == '/' || c == ':' || c == '=' || c == '-';
        if !plain {
            return true;
        }
        i = i + 1;
    }
    false
}

/// Append the encoding of one argument to `out`.
pub fn push_argument(out: &mut String, a: &str)
    ensures
        final(out)@ == old(out)@ + encoded_argument(a@),
{
    if !argument_needs_quotes(a) {
        out.append(a);
        return;
    }
    proof {
        reveal_strlit("\"");
        reveal_strlit("\\");
    }
    out.append("\"");
    let n = a.unicode_len();
    let mut i: usize = 0;
    let ghost start = out@;
    assert(escaped(a@.take(0)) =~= Seq::<char>::empty());
    while i < n
        invariant
            i <= n == a@.len(),
            out@ == start + escaped(a@.take(i as int)),
        decreases n - i,
    {
        let c = a.get_char(i);
        let one = a.substring_char(i, i + 1);
        assert(one@ =~= seq![c]);
        proof {
            assert(a@.take(i as int + 1) =~= a@.take(i as int) + seq![c]);
            lemma_escaped_append(a@.take(i as int), seq![c]);
            assert(seq![c].skip(1) =~= Seq::<char>::empty());
            assert(escaped(seq![c].skip(1)) =~= Seq::<char>::empty());
            assert(escaped(seq![c]) =~= escaped_char(c));
        }
        if c == '"' || c == '\\' {
            proof {
                reveal_strlit("\\");
            }
            out.append("\\");
            out.append(one);
            assert(out@ =~= start + escaped(a@.take(i as int)) + seq!['\\', c]);
        } else {
            out.append(one);
        }
        assert(out@ =~= start + escaped(a@.take(i as int + 1)));
        i = i + 1;
    }
    assert(a@.take(n as int) =~= a@);
    out.append("\"");
    assert(out@ =~= old(out)@ + encoded_argument(a@));
}

impl RawCommand {
    /// A command with the given name and no arguments.
    pub fn new(name: &str) -> (r: RawCommand)
        ensures
            r@.0 == name@,
            r@.1 == Seq::<Seq<char>>::empty(),
    {
        let r = RawCommand { name: String::from_str(name), arguments: Vec::new() };
        assert(r@.1 =~= Seq::<Seq<char>>::empty());
        r
    }

    /// Add an argument after the ones already present.
    pub fn argument(self, arg: String) -> (r: RawCommand)
        ensures
            r@.0 == self@.0,
            r@.1 == self@.1.push(arg@),
    {
        let mut r = self;
        r.arguments.push(arg);
        assert(r@.1 =~= self@.1.push(arg@));
        r
    }

    /// Append this command's line to `out`.
    pub fn encode_into(&self, out: &mut String)
        ensures
            final(out)@ == old(out)@ + encoded_command(self@.0, self@.1),
    {
        out.append(self.name.as_str());
        let ghost start = out@;
        let mut i: usize = 0;
        assert(self@.1.take(0) =~= Seq::<Seq<char>>::empty());
        while i < self.arguments.len()
            invariant
                i <= self.arguments@.len() == self@.1.len(),
                out@ == start + encoded_arguments(self@.1.take(i as int)),
            decreases self.arguments@.len() - i,
        {
            proof {
                reveal_strlit(" ");
            }
            out.append(" ");
            push_argument(out, self.arguments[i].as_str());
            assert(self@.1.take(i as int + 1).drop_last() =~= self@.1.take(i as int));
            assert(out@ =~= start + encoded_arguments(self@.1.take(i as int + 1)));
            i = i + 1;
        }
        assert(self@.1.take(i as int) =~= self@.1);
        proof {
            reveal_strlit("\n");
        }
        out.append("\n");
        assert(out@ =~= old(out)@ + encoded_command(self@.0, self@.1));
    }

    /// The command's line on the wire.
    pub fn encode(&self) -> (r: String)
        ensures
            r@ == encoded_command(self@.0, self@.1),
    {
        let mut out = String::new();
        self.encode_into(&mut out);
        assert(out@ =~= encoded_command(self@.0, self@.1));
        out
    }
}

/// A non-empty list of commands, sent together.
#[derive(Clone, Debug, PartialEq, Eq)]
pub struct RawCommandList {
    pub(crate) commands: Vec<RawCommand>,
}

impl View for RawCommandList {
    type V = Seq<(Seq<char>, Seq<Seq<char>>)>;

    closed spec fn view(&self) -> Seq<(Seq<char>, Seq<Seq<char>>)> {
        Seq::new(self.commands@.len(), |i: int| self.commands@[i]@)
    }
}

impl RawCommandList {
    /// A list holds at least one command.
    pub open spec fn wf(&self) -> bool {
        self@.len() > 0
    }

    /// A list of the one command `first`.
    pub fn new(first: RawCommand) -> (r: RawCommandList)
        ensures
            r@ == seq![first@],
            r.wf(),
    {
        let r = RawCommandList { commands: vec![first] };
        assert(r@ =~= seq![first@]);
        r
    }

    /// A list of the given commands, in order; `None` where there are none.
    pub fn from_commands(commands: Vec<RawCommand>) -> (r: Option<RawCommandList>)
        ensures
            commands@.len() == 0 ==> r is None,
            commands@.len() > 0 ==> (r matches Some(l) && l.wf() && l@ == Seq::new(
                commands@.len(),
                |i: int| commands@[i]@,
            )),
    {
        if commands.len() == 0 {
            None
        } else {
            let r = RawCommandList { commands };
            assert(r@ =~= Seq::new(commands@.len(), |i: int| commands@[i]@));
            Some(r)
        }
    }

    /// Add a command at the end of the list.
    pub fn add(&mut self, command: RawCommand)
        requires
            old(self).wf(),
        ensures
            final(self)@ == old(self)@.push(command@),
            final(self).wf(),
    {
        let ghost c = command@;
        self.commands.push(command);
        assert(self@ =~= old(self)@.push(c));
    }

    /// Number of commands in the list.
    pub fn len(&self) -> (r: usize)
        ensures
            r == self@.len(),
    {
        self.commands.len()
    }

    /// The list on the wire: one command alone, more inside `command_list_ok_begin` and
    /// `command_list_end`.
    pub fn encode(&self) -> (r: String)
        requires
            self.wf(),
        ensures
            r@ == encoded_list(self@),
    {
        if self.commands.len() == 1 {
            return self.commands[0].encode();
        }
        proof {
            reveal_strlit("command_list_ok_begin\n");
            reveal_strlit("command_list_end\n");
        }
        let mut out = String::from_str("command_list_ok_begin\n");
        let ghost start = out@;
        let mut i: usize = 0;
        assert(self@.take(0) =~= Seq::<(Seq<char>, Seq<Seq<char>>)>::empty());
        while i < self.commands.len()
            invariant
                i <= self.commands@.len() == self@.len(),
                out@ == start + encoded_lines(self@.take(i as int)),
            decreases self.commands@.len() - i,
        {
            self.commands[i].encode_into(&mut out);
            assert(self@.take(i as int + 1).drop_last() =~= self@.take(i as int));
            assert(out@ =~= start + encoded_lines(self@.take(i as int + 1)));
            i = i + 1;
        }
        assert(self@.take(i as int) =~= self@);
        out.append("command_list_end\n");
        assert(out@ =~= encoded_list(self@));
        out
    }
}

} // verus!
