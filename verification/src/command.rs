//! Command templates and the commands generated from them.

pub mod distribution;
pub mod error;
pub mod parser;
pub mod placeholder;
pub mod text;

use crate::command::error::CommandError;
use crate::command::parser::all_valid;
use crate::command::parser::parse_all;
use crate::command::parser::parse_template;
use crate::command::parser::parts_of;
use crate::command::placeholder::PlaceholderEnum;
use crate::command::placeholder::PlaceholderModel;
use crate::command::text::chars_of;
use crate::command::text::joined;
use crate::command::text::push_chars;
use crate::command::text::split_words;
use crate::command::text::string_of;
use crate::command::text::strings_of;
use crate::command::text::texts_of;
use crate::command::text::words;
use vstd::prelude::*;

verus! {

/// A compiled template.
pub struct CommandModel {
    /// The template as it was written.
    pub text: Seq<char>,
    /// Its parts in order.
    pub parts: Seq<PlaceholderModel>,
}

/// What all the parts write, one after the other, as one text: the
/// arguments of one part are set apart by a space, and nothing stands
/// between one part and the next.
pub open spec fn text_of(outs: Seq<Seq<Seq<char>>>) -> Seq<char>
    decreases outs.len(),
{
    if outs.len() == 0 {
        seq![]
    } else {
        text_of(outs.drop_last()) + joined(outs.last())
    }
}

impl CommandModel {
    pub open spec fn valid(self) -> bool {
        all_valid(self.parts)
    }

    /// Whether the parts can stand for `outs`, part by part, when a command
    /// is generated.
    pub open spec fn generates(self, outs: Seq<Seq<Seq<char>>>) -> bool {
        &&& outs.len() == self.parts.len()
        &&& forall|i: int| 0 <= i < outs.len() ==> (#[trigger] self.parts[i]).emits(outs[i])
    }

    /// The template after a command was generated from it.
    pub open spec fn advanced(self) -> CommandModel {
        CommandModel {
            parts: Seq::new(self.parts.len(), |i: int| self.parts[i].advanced()),
            ..self
        }
    }
}

/// A command template, compiled once and generated from many times.
#[derive(Debug)]
pub struct Command {
    str: String,
    argv: Vec<PlaceholderEnum>,
}

impl View for Command {
    type V = CommandModel;

    closed spec fn view(&self) -> CommandModel {
        CommandModel { text: self.str@, parts: parts_of(self.argv@) }
    }
}

impl Command {
    /// Compiles a template.
    pub fn new(cmd: &str) -> (made: Result<Command, CommandError>)
        ensures
            match parse_template(cmd@) {
                Ok(parts) => made matches Ok(command) && command@ == (CommandModel {
                    text: cmd@,
                    parts,
                }) && command@.valid(),
                Err(error) => made matches Err(e) && e == error,
            },
    {
        match parse_all(cmd) {
            Ok(args) => Ok(Command { str: cmd.to_owned(), argv: args }),
            Err(error) => Err(error),
        }
    }

    /// Generates the arguments of one command: every part in order stands
    /// for its arguments, which are written with a space between them; the
    /// parts are written one right after the other, and the words of that
    /// text are the arguments of the command. `zipf` is
    /// called, with the number of elements, for every key that is drawn by
    /// Zipf's law, and returns a rank.
    pub fn gen_cmd<F: Fn(u64) -> u64>(&mut self, zipf: &F) -> (args: Vec<String>)
        requires
            old(self)@.valid(),
            forall|n: u64| n > 0 ==> call_requires(*zipf, (n,)),
        ensures
            final(self)@ == old(self)@.advanced(),
            final(self)@.valid(),
            exists|outs: Seq<Seq<Seq<char>>>|
                old(self)@.generates(outs) && strings_of(args@) == words(#[trigger] text_of(outs)),
    {
        let mut cmd_str: Vec<char> = Vec::new();
        let ghost mut outs: Seq<Seq<Seq<char>>> = seq![];
        let ghost before = parts_of(self.argv@);
        let mut i: usize = 0;
        while i < self.argv.len()
            invariant
                i <= self.argv.len(),
                self.argv.len() == before.len(),
                self.str == old(self).str,
                before == parts_of(old(self).argv@),
                all_valid(before),
                forall|n: u64| n > 0 ==> call_requires(*zipf, (n,)),
                forall|j: int| 0 <= j < i ==> (#[trigger] self.argv@[j])@ == before[j].advanced(),
                forall|j: int| i <= j < before.len() ==> (#[trigger] self.argv@[j])@ == before[j],
                all_valid(parts_of(self.argv@)),
                outs.len() == i,
                forall|j: int| 0 <= j < i ==> (#[trigger] before[j]).emits(outs[j]),
                cmd_str@ == text_of(outs),
            decreases self.argv.len() - i,
        {
            assert(self.argv@[i as int]@ == before[i as int]);
            assert(before[i as int].valid());
            let ghost argv_before = self.argv@;
            let out = self.argv[i].gen(zipf);
            proof {
                assert forall|j: int| 0 <= j < self.argv@.len() implies (#[trigger] parts_of(
                    self.argv@,
                )[j]).valid() by {
                    if j != i {
                        assert(self.argv@[j] == argv_before[j]);
                        assert(parts_of(argv_before)[j].valid());
                    }
                }
            }
            let ghost start = cmd_str@;
            let mut k: usize = 0;
            while k < out.len()
                invariant
                    k <= out.len(),
                    cmd_str@ == start + joined(strings_of(out@).take(k as int)),
                decreases out.len() - k,
            {
                if k > 0 {
                    cmd_str.push(' ');
                }
                let more = chars_of(out[k].as_str());
                push_chars(&mut cmd_str, &more);
                proof {
                    let parts = strings_of(out@);
                    let upto = parts.take(k as int + 1);
                    assert(upto.drop_last() =~= parts.take(k as int));
                    assert(upto.last() == more@);
                    if k > 0 {
                        assert(cmd_str@ =~= start + (joined(parts.take(k as int)) + seq![' ']
                            + more@));
                    } else {
                        assert(upto[0] == more@);
                        assert(joined(parts.take(0)) =~= Seq::<char>::empty());
                        assert(cmd_str@ =~= start + joined(upto));
                    }
                }
                k += 1;
            }
            proof {
                let parts = strings_of(out@);
                assert(parts.take(out.len() as int) =~= parts);
                let ghost longer = outs.push(parts);
                assert(longer.drop_last() =~= outs);
                outs = longer;
            }
            i += 1;
        }
        let list = split_words(&cmd_str);
        let mut args: Vec<String> = Vec::new();
        let mut j: usize = 0;
        while j < list.len()
            invariant
                j <= list.len(),
                args.len() == j,
                forall|k: int| 0 <= k < j ==> (#[trigger] args@[k])@ == list@[k]@,
            decreases list.len() - j,
        {
            args.push(string_of(&list[j]));
            j += 1;
        }
        proof {
            assert(strings_of(args@) =~= texts_of(list@));
            assert(self@.parts =~= old(self)@.advanced().parts);
        }
        args
    }

    /// The template as it was written.
    pub fn to_string(&self) -> (text: String)
        ensures
            text@ == self@.text,
    {
        self.str.clone()
    }
}

} // verus!
