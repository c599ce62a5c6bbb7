use vstd::prelude::*;

use crate::ids::StringIndex;
use crate::syms::ty::Type;

verus! {

/// The platforms the backend can emit code for.
#[derive(Clone, Copy, Debug, PartialEq, Eq, Structural)]
pub enum CompilationTarget {
    Arm64AppleDarwin,
    Wasm32UnknownUnknown,
}

/// A target name that `CompilationTarget::try_from` does not know.
#[derive(Clone, Debug)]
pub struct UnsupportedCompilationTarget {
    pub target: String,
}

impl UnsupportedCompilationTarget {
    /// The message shown for this error.
    pub fn message(&self) -> (r: String)
        ensures
            r@ == "unsupported compilation target: "@ + self.target@,
    {
        let mut m = String::from_str("unsupported compilation target: ");
        m.append(self.target.as_str());
        m
    }
}

/// A package brought into every compiled program.
#[derive(Clone, Debug)]
pub struct Prelude {
    pub alias: String,
    pub url: String,
}

/// The target that a name selects, if it names one.
pub open spec fn spec_target_of(name: Seq<char>) -> Option<CompilationTarget> {
    if name == "default"@ || name == "arm64-apple-darwin"@ {
        Some(CompilationTarget::Arm64AppleDarwin)
    } else if name == "wasm32-unknown-unknown"@ {
        Some(CompilationTarget::Wasm32UnknownUnknown)
    } else {
        None
    }
}

fn str_eq(a: &str, b: &str) -> (r: bool)
    ensures
        r == (a@ == b@),
{
    a.to_owned() == b.to_owned()
}

impl CompilationTarget {
    /// Parses a target name; `"default"` selects arm64 Darwin.
    pub fn try_from(value: &str) -> (r: Result<CompilationTarget, UnsupportedCompilationTarget>)
        ensures
            match spec_target_of(value@) {
                Some(t) => r == Ok::<CompilationTarget, UnsupportedCompilationTarget>(t),
                None => r matches Err(e) && e.target@ == value@,
            },
    {
        if str_eq(value, "default") || str_eq(value, "arm64-apple-darwin") {
            Ok(CompilationTarget::Arm64AppleDarwin)
        } else if str_eq(value, "wasm32-unknown-unknown") {
            Ok(CompilationTarget::Wasm32UnknownUnknown)
        } else {
            Err(UnsupportedCompilationTarget { target: value.to_owned() })
        }
    }

    /// Parses an owned target name, as `try_from` does.
    pub fn try_from_string(value: String) -> (r: Result<CompilationTarget, UnsupportedCompilationTarget>)
        ensures
            match spec_target_of(value@) {
                Some(t) => r == Ok::<CompilationTarget, UnsupportedCompilationTarget>(t),
                None => r matches Err(e) && e.target@ == value@,
            },
    {
        CompilationTarget::try_from(value.as_str())
    }

    pub open spec fn spec_margarine_target_triple(self) -> Seq<char> {
        match self {
            CompilationTarget::Arm64AppleDarwin => "arm64-apple-darwin"@,
            CompilationTarget::Wasm32UnknownUnknown => "wasm32-unknown-unknown"@,
        }
    }

    /// The triple under which margarine names the target.
    pub fn margarine_target_triple(self) -> (r: String)
        ensures
            r@ == self.spec_margarine_target_triple(),
    {
        match self {
            CompilationTarget::Arm64AppleDarwin => "arm64-apple-darwin".to_owned(),
            CompilationTarget::Wasm32UnknownUnknown => "wasm32-unknown-unknown".to_owned(),
        }
    }

    /// The triple handed to LLVM; the same as margarine's.
    pub fn llvm_target_triple(self) -> (r: String)
        ensures
            r@ == self.spec_margarine_target_triple(),
    {
        match self {
            CompilationTarget::Arm64AppleDarwin => "arm64-apple-darwin".to_owned(),
            CompilationTarget::Wasm32UnknownUnknown => "wasm32-unknown-unknown".to_owned(),
        }
    }

    /// The triple handed to the C toolchain, which spells arm64 as aarch64.
    pub fn c_target_triple(self) -> (r: String)
        ensures
            r@ == (match self {
                CompilationTarget::Arm64AppleDarwin => "aarch64-apple-darwin"@,
                CompilationTarget::Wasm32UnknownUnknown => "wasm32-unknown-unknown"@,
            }),
    {
        match self {
            CompilationTarget::Arm64AppleDarwin => "aarch64-apple-darwin".to_owned(),
            CompilationTarget::Wasm32UnknownUnknown => "wasm32-unknown-unknown".to_owned(),
        }
    }
}

/// Every target's margarine triple parses back to that target.
pub proof fn law_triple_round_trip(t: CompilationTarget)
    ensures
        spec_target_of(t.spec_margarine_target_triple()) == Some(t),
{
    reveal_strlit("default");
    reveal_strlit("arm64-apple-darwin");
    reveal_strlit("wasm32-unknown-unknown");
    assert("wasm32-unknown-unknown"@[0] != "default"@[0]);
    assert("wasm32-unknown-unknown"@[0] != "arm64-apple-darwin"@[0]);
}


/// A local slot of the function being generated.
#[derive(Clone, Copy, Debug, PartialEq, Eq, Structural)]
pub struct Local(pub u32);

/// The variables in scope while a function is generated, innermost last:
/// each with its name, its slot, its type and whether it is a parameter.
pub struct Env {
    pub vars: Vec<(StringIndex, Local, Type, bool)>,
}

/// The innermost variable of `vars` named `name`.
pub open spec fn innermost(vars: Seq<(StringIndex, Local, Type, bool)>, name: StringIndex) -> Option<(StringIndex, Local, Type, bool)>
    decreases vars.len(),
{
    if vars.len() == 0 {
        None
    } else if vars.last().0 == name {
        Some(vars.last())
    } else {
        innermost(vars.drop_last(), name)
    }
}

impl Env {
    /// The innermost variable named `name`.
    fn lookup(&self, name: StringIndex) -> (r: Option<(StringIndex, Local, Type, bool)>)
        ensures
            r == innermost(self.vars@, name),
    {
        let mut i: usize = self.vars.len();
        proof {
            assert(self.vars@.subrange(0, i as int) =~= self.vars@);
        }
        while i > 0
            invariant
                0 <= i <= self.vars@.len(),
                innermost(self.vars@, name) == innermost(self.vars@.subrange(0, i as int), name),
            decreases i,
        {
            proof {
                let pre = self.vars@.subrange(0, i as int);
                assert(pre.last() == self.vars@[i - 1]);
                assert(pre.drop_last() =~= self.vars@.subrange(0, i - 1));
            }
            if self.vars[i - 1].0 == name {
                return Some(self.vars[i - 1]);
            }
            i = i - 1;
        }
        proof {
            assert(self.vars@.subrange(0, 0) =~= Seq::<(StringIndex, Local, Type, bool)>::empty());
        }
        None
    }

    /// Brings a variable into scope.
    pub fn alloc_var(&mut self, name: StringIndex, local: Local, ty: Type, is_param: bool)
        ensures
            final(self).vars@ == old(self).vars@.push((name, local, ty, is_param)),
    {
        self.vars.push((name, local, ty, is_param));
    }

    /// The slot of the innermost variable named `name`.
    pub fn find_var(&self, name: StringIndex) -> (r: Option<Local>)
        ensures
            r == match innermost(self.vars@, name) {
                Some(v) => Some(v.1),
                None => None,
            },
    {
        match self.lookup(name) {
            Some(v) => Some(v.1),
            None => None,
        }
    }

    /// The type of the innermost variable named `name`.
    pub fn find_var_ty(&self, name: StringIndex) -> (r: Option<Type>)
        ensures
            r == match innermost(self.vars@, name) {
                Some(v) => Some(v.2),
                None => None,
            },
    {
        match self.lookup(name) {
            Some(v) => Some(v.2),
            None => None,
        }
    }

    /// Whether the innermost variable named `name` is a parameter; false
    /// when there is none.
    pub fn is_var_param(&self, name: StringIndex) -> (r: bool)
        ensures
            r == match innermost(self.vars@, name) {
                Some(v) => v.3,
                None => false,
            },
    {
        match self.lookup(name) {
            Some(v) => v.3,
            None => false,
        }
    }
}

/// A variable brought into scope hides every earlier one of its name.
pub proof fn law_latest_variable_wins(vars: Seq<(StringIndex, Local, Type, bool)>, v: (StringIndex, Local, Type, bool), other: StringIndex)
    ensures
        innermost(vars.push(v), v.0) == Some(v),
        other != v.0 ==> innermost(vars.push(v), other) == innermost(vars, other),
{
    assert(vars.push(v).drop_last() =~= vars);
}

} // verus!
