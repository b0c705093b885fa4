use vstd::prelude::*;

pub mod builder;
pub mod chars;
pub mod context;
pub mod data;
pub mod encoder;
pub mod error;
pub mod parser;
pub mod template;

pub use builder::{MapBuilder, VecBuilder};
pub use context::Context;
pub use data::{Data, Lambda};
pub use encoder::Encoder;
pub use error::Error;
pub use template::Template;

use parser::{compiled, flat_seq, no_tag, plain_text, section_free};
use vstd::std_specs::iter::IteratorSpec;

verus! {

/// Compiles a template from the characters an iterator yields. An iterator
/// that never ends is read until a `Vec` could hold no more.
pub fn compile_iter<T: Iterator<Item = char>>(iter: T) -> (r: Result<Template, Error>)
    ensures
        r is Err ==> r == Err::<Template, Error>(Error::UnbalancedSection),
        iter.obeys_prophetic_iter_laws() && iter.remaining().len() < usize::MAX ==> {
            &&& r is Ok <==> compiled(iter.remaining(), seq!['{', '{'], seq!['}', '}']) is Ok
            &&& r matches Ok(t) ==> flat_seq(t.tokens@) == compiled(
                iter.remaining(),
                seq!['{', '{'],
                seq!['}', '}'],
            )->Ok_0 && t.partials@.len() == 0
        },
{
    let mut it = iter;
    let mut chars: Vec<char> = Vec::new();
    while chars.len() < usize::MAX
        invariant
            it.obeys_prophetic_iter_laws() == iter.obeys_prophetic_iter_laws(),
            iter.obeys_prophetic_iter_laws() ==> chars@ + it.remaining() == iter.remaining(),
        decreases usize::MAX - chars.len(),
    {
        let ghost rem = it.remaining();
        match it.next() {
            Some(c) => {
                let ghost before = chars@;
                chars.push(c);
                proof {
                    if iter.obeys_prophetic_iter_laws() {
                        assert(rem =~= seq![c] + it.remaining());
                        assert(chars@ + it.remaining() =~= before + rem);
                    }
                }
            },
            None => {
                proof {
                    if iter.obeys_prophetic_iter_laws() {
                        assert(chars@ =~= iter.remaining());
                    }
                }
                return Context::new(".").compile_chars(&chars);
            },
        }
    }
    Context::new(".").compile_chars(&chars)
}

/// Compiles a template from a string, looking for partials under the current directory.
pub fn compile_str(template: &str) -> (r: Result<Template, Error>)
    ensures
        r is Ok ==> r->Ok_0.ctx.template_path@ == "."@ && r->Ok_0.ctx.template_extension@
            == "mustache"@ && r->Ok_0.partials@.len() == 0,
        r is Err ==> r == Err::<Template, Error>(Error::UnbalancedSection),
        no_tag(template@, seq!['{', '{']) ==> r is Ok && plain_text(template@, r->Ok_0.tokens@),
        section_free(template@, seq!['{', '{']) ==> r is Ok,
        r is Ok <==> compiled(template@, seq!['{', '{'], seq!['}', '}']) is Ok,
        r matches Ok(t) ==> flat_seq(t.tokens@) == compiled(template@, seq!['{', '{'], seq!['}', '}'])->Ok_0,
{
    Context::new(".").compile(template)
}

} // verus!
