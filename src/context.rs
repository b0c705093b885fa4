use vstd::prelude::*;

use crate::chars::chars_of;
use crate::error::Error;
use crate::parser::{compiled, flat_seq, no_tag, parse, plain_text, section_free};
use crate::template::{self, Template};

verus! {

/// The settings a template is compiled with: where its partials live and the
/// extension of their files.
pub struct Context {
    pub template_path: String,
    pub template_extension: String,
}

impl Context {
    /// A context whose partials are looked up under `path`, in files ending in `.mustache`.
    pub fn new(path: &str) -> (r: Context)
        ensures
            r.template_path@ == path@,
            r.template_extension@ == "mustache"@,
    {
        Context {
            template_path: String::from_str(path),
            template_extension: String::from_str("mustache"),
        }
    }

    /// Compiles a template from its text, with the default delimiters and no partials yet.
    pub fn compile(&self, text: &str) -> (r: Result<Template, Error>)
        ensures
            r is Ok ==> r->Ok_0.ctx.template_path == self.template_path
                && r->Ok_0.ctx.template_extension == self.template_extension
                && r->Ok_0.partials@.len() == 0,
            r is Err ==> r == Err::<Template, Error>(Error::UnbalancedSection),
            no_tag(text@, seq!['{', '{']) ==> r is Ok && plain_text(text@, r->Ok_0.tokens@),
            section_free(text@, seq!['{', '{']) ==> r is Ok,
            r is Ok <==> compiled(text@, seq!['{', '{'], seq!['}', '}']) is Ok,
            r matches Ok(t) ==> flat_seq(t.tokens@) == compiled(text@, seq!['{', '{'], seq!['}', '}'])->Ok_0,
    {
        let chars = chars_of(text);
        self.compile_chars(&chars)
    }

    /// Compiles a template from its characters, with the default delimiters and no partials yet.
    pub fn compile_chars(&self, chars: &Vec<char>) -> (r: Result<Template, Error>)
        ensures
            r is Ok ==> r->Ok_0.ctx.template_path == self.template_path
                && r->Ok_0.ctx.template_extension == self.template_extension
                && r->Ok_0.partials@.len() == 0,
            r is Err ==> r == Err::<Template, Error>(Error::UnbalancedSection),
            no_tag(chars@, seq!['{', '{']) ==> r is Ok && plain_text(chars@, r->Ok_0.tokens@),
            section_free(chars@, seq!['{', '{']) ==> r is Ok,
            r is Ok <==> compiled(chars@, seq!['{', '{'], seq!['}', '}']) is Ok,
            r matches Ok(t) ==> flat_seq(t.tokens@) == compiled(chars@, seq!['{', '{'], seq!['}', '}'])->Ok_0,
    {
        let otag: Vec<char> = vec!['{', '{'];
        let ctag: Vec<char> = vec!['}', '}'];
        assert(otag@ =~= seq!['{', '{']);
        assert(ctag@ =~= seq!['}', '}']);
        match parse(chars, &otag, &ctag) {
            Ok(tokens) => {
                let ctx = Context {
                    template_path: self.template_path.clone(),
                    template_extension: self.template_extension.clone(),
                };
                Ok(template::new(ctx, tokens, Vec::new()))
            },
            Err(e) => Err(e),
        }
    }
}

} // verus!
