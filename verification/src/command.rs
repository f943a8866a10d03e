//! The commands that the library has its callers run.
use crate::text::texts;
use vstd::prelude::*;
use vstd::string::*;

verus! {

/// A program to run, its arguments, and what is added to its environment.
pub struct AptCommand {
    pub program: String,
    pub args: Vec<String>,
    /// The variables that are set, each with its value.
    pub env: Vec<(String, String)>,
}

#[verifier::ext_equal]
pub struct AptCommandView {
    pub program: Seq<char>,
    pub args: Seq<Seq<char>>,
    pub env: Seq<(Seq<char>, Seq<char>)>,
}

/// The variables that `env` holds, each with its value.
pub open spec fn variables(env: Seq<(String, String)>) -> Seq<(Seq<char>, Seq<char>)> {
    env.map_values(|v: (String, String)| (v.0@, v.1@))
}

impl View for AptCommand {
    type V = AptCommandView;

    open spec fn view(&self) -> AptCommandView {
        AptCommandView {
            program: self.program@,
            args: texts(self.args@),
            env: variables(self.env@),
        }
    }
}

impl AptCommand {
    /// A command with one argument.
    pub fn with_one(program: &str, arg: &str) -> (r: Self)
        ensures
            r@ == (AptCommandView { program: program@, args: seq![arg@], env: seq![] }),
    {
        let args: Vec<String> = vec![arg.to_owned()];
        assert(texts(args@) =~= seq![arg@]);
        let r = AptCommand { program: program.to_owned(), args, env: Vec::new() };
        assert(variables(r.env@) =~= seq![]);
        r
    }

    /// A command with two arguments.
    pub fn with_two(program: &str, first: &str, second: &str) -> (r: Self)
        ensures
            r@ == (AptCommandView {
                program: program@,
                args: seq![first@, second@],
                env: seq![],
            }),
    {
        let mut args: Vec<String> = Vec::new();
        args.push(first.to_owned());
        args.push(second.to_owned());
        let r = AptCommand { program: program.to_owned(), args, env: Vec::new() };
        assert(variables(r.env@) =~= seq![]);
        assert(texts(r.args@) =~= seq![first@, second@]);
        r
    }

    /// The same command with one more variable set.
    pub fn with_variable(self, name: &str, value: &str) -> (r: Self)
        ensures
            r@ == (AptCommandView { env: self@.env.push((name@, value@)), ..self@ }),
    {
        let mut env = self.env;
        env.push((name.to_owned(), value.to_owned()));
        assert(variables(env@) =~= variables(self.env@).push((name@, value@)));
        AptCommand { program: self.program, args: self.args, env }
    }
}

} // verus!
