//! Semantic validation of a parsed program.
//!
//! The language requires exactly one designated entry function: the
//! generated code's preamble calls a function named `entry`, and `main`
//! is reserved for the host toolchain. Validation therefore rejects a
//! program that defines a function named `main`, then one that defines
//! no function named `entry`.

use vstd::prelude::*;
use vstd::string::StrSliceExecFns;
use crate::parser::{toplevels_view, TopLevel, TopLevelV};

verus! {

/// Errors of semantic validation.
#[derive(Debug, Clone, PartialEq, Eq, Structural)]
pub enum SemanticError {
    NoEntryFunction,
    MainIsReserved,
}

/// Whether some top-level item of `p` is a function named `name`.
pub open spec fn has_function(p: Seq<TopLevelV>, name: Seq<char>) -> bool {
    exists|k: int|
        0 <= k < p.len() && (#[trigger] p[k] matches TopLevelV::Function { name: n, body: _ } && n
            == name)
}

/// A semantic analyzer over a collection of top-level items.
pub struct SemanticAnalyzer {
    functions: Vec<TopLevel>,
}

impl SemanticAnalyzer {
    /// How many top-level items the analyzer holds.
    pub closed spec fn len(self) -> nat {
        self.functions@.len()
    }
}

impl Default for SemanticAnalyzer {
    fn default() -> (r: Self)
        ensures
            r.len() == 0,
    {
        SemanticAnalyzer { functions: Vec::new() }
    }
}

/// Whether the characters of `a` are exactly those of `b`.
fn str_eq(a: &str, b: &str) -> (r: bool)
    ensures
        r == (a@ == b@),
{
    let n: usize = a.unicode_len();
    if b.unicode_len() != n {
        return false;
    }
    let mut i: usize = 0;
    while i < n
        invariant
            i <= n,
            n == a@.len(),
            b@.len() == n,
            forall|k: int| 0 <= k < i ==> a@[k] == b@[k],
        decreases n - i,
    {
        if a.get_char(i) != b.get_char(i) {
            return false;
        }
        i += 1;
    }
    proof {
        assert(a@ =~= b@);
    }
    true
}

proof fn lemma_has_function_push(p: Seq<TopLevelV>, x: TopLevelV, name: Seq<char>)
    ensures
        has_function(p.push(x), name) == (has_function(p, name) || (x matches TopLevelV::Function {
            name: n,
            body: _,
        } && n == name)),
{
    let q = p.push(x);
    if has_function(p, name) {
        let k = choose|k: int|
            0 <= k < p.len() && (#[trigger] p[k] matches TopLevelV::Function { name: n, body: _ }
                && n == name);
        assert(q[k] == p[k]);
        assert(has_function(q, name));
    }
    if (x matches TopLevelV::Function { name: n, body: _ } && n == name) {
        assert(q[p.len() as int] == x);
        assert(has_function(q, name));
    }
    if has_function(q, name) {
        let k = choose|k: int|
            0 <= k < q.len() && (#[trigger] q[k] matches TopLevelV::Function { name: n, body: _ }
                && n == name);
        if k < p.len() {
            assert(p[k] == q[k]);
            assert(has_function(p, name));
        } else {
            assert(q[k] == x);
        }
    }
}

/// Validate a program: `MainIsReserved` exactly when some function is
/// named `main`; otherwise `NoEntryFunction` exactly when no function is
/// named `entry`; otherwise success.
pub fn validate(program: &Vec<TopLevel>) -> (r: Result<(), SemanticError>)
    ensures
        ({
            let p = toplevels_view(program@);
            match r {
                Ok(_) => has_function(p, "entry"@) && !has_function(p, "main"@),
                Err(e) => (e == SemanticError::MainIsReserved && has_function(p, "main"@)) || (e
                    == SemanticError::NoEntryFunction && !has_function(p, "main"@)
                    && !has_function(p, "entry"@)),
            }
        }),
{
    let ghost p = toplevels_view(program@);
    let mut has_entry = false;
    let mut has_main = false;
    let mut k: usize = 0;
    proof {
        assert(p.subrange(0, 0) =~= Seq::<TopLevelV>::empty());
        assert(!has_function(p.subrange(0, 0), "entry"@));
        assert(!has_function(p.subrange(0, 0), "main"@));
    }
    while k < program.len()
        invariant
            k <= program.len(),
            p == toplevels_view(program@),
            p.len() == program@.len(),
            has_entry == has_function(p.subrange(0, k as int), "entry"@),
            has_main == has_function(p.subrange(0, k as int), "main"@),
        decreases program.len() - k,
    {
        match &program[k] {
            TopLevel::Function { name, body: _ } => {
                if str_eq(name.as_str(), "entry") {
                    has_entry = true;
                }
                if str_eq(name.as_str(), "main") {
                    has_main = true;
                }
            },
            TopLevel::Statement(_) => {},
        }
        proof {
            assert(p.subrange(0, k + 1 as int) =~= p.subrange(0, k as int).push(p[k as int]));
            lemma_has_function_push(p.subrange(0, k as int), p[k as int], "entry"@);
            lemma_has_function_push(p.subrange(0, k as int), p[k as int], "main"@);
        }
        k += 1;
    }
    proof {
        assert(p.subrange(0, p.len() as int) =~= p);
    }
    if has_main {
        Err(SemanticError::MainIsReserved)
    } else if !has_entry {
        Err(SemanticError::NoEntryFunction)
    } else {
        Ok(())
    }
}

} // verus!
