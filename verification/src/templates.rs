//! Template rendering with Tera and the built-in Fusion UI components.
//!
//! Reading template files and the built-in assets is the host's part; the
//! engine for a templates root is built once from the templates the host
//! collected and reused until the root changes or the cache is cleared.

use vstd::prelude::*;

use crate::json::{Json, JsonValue};
use crate::strmap::StrMap;
use crate::text::{chars_eq, chars_of, extend, has_prefix, replace, replace_all, to_string};

verus! {

/// List built-in component names exposed to templates, with their usage.
pub fn builtin_components() -> (r: StrMap<&'static str>)
    ensures
        r@.dom() == set!["button"@, "link"@, "card"@, "alert"@, "badge"@, "table"@],
        r@.contains_key("button"@),
        r@.contains_key("link"@),
        r@.contains_key("card"@),
        r@.contains_key("alert"@),
        r@.contains_key("badge"@),
        r@.contains_key("table"@),
        r@["button"@]@ == "{{<fusion.button label=\"...\" href=\"...\" variant=\"primary\" />}}"@,
        r@["link"@]@ == "{{<fusion.link label=\"...\" href=\"...\" />}}"@,
        r@["card"@]@ == "{{<fusion.card title=\"...\" content=\"...\" />}}"@,
        r@["alert"@]@ == "{{<fusion.alert message={msg} variant=\"info\" />}}"@,
        r@["badge"@]@ == "{{<fusion.badge label=\"...\" variant=\"success\" dot={true} />}}"@,
        r@["table"@]@ == "{{<fusion.table headers={cols} rows={rows} caption=\"...\" page_size={10} />}}"@,
{
    proof {
        lemma_component_names();
    }
    let mut r: StrMap<&'static str> = StrMap::new();
    r.insert("button".to_string(), "{{<fusion.button label=\"...\" href=\"...\" variant=\"primary\" />}}");
    r.insert("link".to_string(), "{{<fusion.link label=\"...\" href=\"...\" />}}");
    r.insert("card".to_string(), "{{<fusion.card title=\"...\" content=\"...\" />}}");
    r.insert("alert".to_string(), "{{<fusion.alert message={msg} variant=\"info\" />}}");
    r.insert("badge".to_string(), "{{<fusion.badge label=\"...\" variant=\"success\" dot={true} />}}");
    r.insert("table".to_string(), "{{<fusion.table headers={cols} rows={rows} caption=\"...\" page_size={10} />}}");
    assert(r@.dom() =~= set!["button"@, "link"@, "card"@, "alert"@, "badge"@, "table"@]);
    r
}

proof fn lemma_component_names()
    ensures
        "button"@ != "link"@, "button"@ != "card"@, "button"@ != "alert"@, "button"@ != "badge"@, "button"@ != "table"@,
        "link"@ != "card"@, "link"@ != "alert"@, "link"@ != "badge"@, "link"@ != "table"@,
        "card"@ != "alert"@, "card"@ != "badge"@, "card"@ != "table"@,
        "alert"@ != "badge"@, "alert"@ != "table"@,
        "badge"@ != "table"@,
{
    reveal_strlit("button");
    reveal_strlit("link");
    reveal_strlit("card");
    reveal_strlit("alert");
    reveal_strlit("badge");
    reveal_strlit("table");
    assert("button"@.len() == 6);
    assert("link"@[0] != "card"@[0]);
    assert("alert"@[0] != "badge"@[0]);
    assert("alert"@[0] != "table"@[0]);
    assert("badge"@[0] != "table"@[0]);
    assert("link"@.len() != "alert"@.len());
    assert("card"@.len() != "table"@.len());
}

#[verifier::external_type_specification]
#[verifier::external_body]
pub struct ExTera(tera::Tera);

#[verifier::external_type_specification]
#[verifier::external_body]
pub struct ExTeraContext(tera::Context);

/// What a Tera engine holds: the source text of each registered template,
/// by name.
pub uninterp spec fn tera_templates(t: tera::Tera) -> Map<Seq<char>, Seq<char>>;

/// Whether `Tera::add_raw_templates` accepts the templates `adds` (name,
/// source) on an engine holding `held`: each added source parses, and the
/// inheritance chains and macro imports of the templates then held resolve.
pub uninterp spec fn tera_accepts(held: Map<Seq<char>, Seq<char>>, adds: Seq<(Seq<char>, Seq<char>)>) -> bool;

/// An engine's templates when it holds none.
pub open spec fn no_templates() -> Map<Seq<char>, Seq<char>> {
    Map::empty()
}

/// Template pairs as text.
pub open spec fn template_pairs(ts: Seq<(String, String)>) -> Seq<(Seq<char>, Seq<char>)> {
    ts.map_values(|p: (String, String)| (p.0@, p.1@))
}

/// `held` with each of `adds` registered in turn (a later name wins).
pub open spec fn with_templates(held: Map<Seq<char>, Seq<char>>, adds: Seq<(Seq<char>, Seq<char>)>) -> Map<
    Seq<char>,
    Seq<char>,
>
    decreases adds.len(),
{
    if adds.len() == 0 {
        held
    } else {
        with_templates(held, adds.drop_last()).insert(adds.last().0, adds.last().1)
    }
}

/// `Tera::default`: an engine with no templates.
#[verifier::external_body]
fn tera_new() -> (engine: tera::Tera)
    ensures
        tera_templates(engine) == no_templates(),
{
    tera::Tera::default()
}

/// `Tera::add_raw_templates`: parses and registers the named templates in
/// order. It succeeds exactly when Tera accepts them (the name
/// `tera_accepts`), always so when nothing is added to an empty engine, and
/// then holds them besides what it held; the error is tera's message. What
/// the engine holds after an error is left unsaid (the templates parsed
/// before the error stay registered).
#[verifier::external_body]
fn tera_add_raw(t: &mut tera::Tera, templates: &Vec<(String, String)>) -> (r: Result<(), String>)
    ensures
        r is Ok <==> tera_accepts(tera_templates(*old(t)), template_pairs(templates@)),
        tera_templates(*old(t)) == no_templates() && templates@.len() == 0 ==> r is Ok,
        r is Ok ==> tera_templates(*final(t)) == with_templates(tera_templates(*old(t)), template_pairs(templates@)),
{
    t.add_raw_templates(templates.iter().map(|(k, v)| (k.as_str(), v.as_str()))).map_err(|e| e.to_string())
}

/// What a Tera context holds: its top-level values by name, as JSON.
pub uninterp spec fn tera_context_data(c: tera::Context) -> Map<Seq<char>, Json>;

/// The values by name that `Context::from_serialize` takes from the JSON
/// object `v` (as serde_json holds them: a later duplicate name wins).
pub uninterp spec fn tera_context_of(v: Json) -> Map<Seq<char>, Json>;

/// `outcome` is a result that `Tera::render` can give for the template
/// `name` of an engine holding `templates`, with a context holding `data`
/// (rendering may read the clock and random numbers, so this is a relation).
pub uninterp spec fn tera_may_render(
    templates: Map<Seq<char>, Seq<char>>,
    name: Seq<char>,
    data: Map<Seq<char>, Json>,
    outcome: Result<Seq<char>, Seq<char>>,
) -> bool;

/// The text of a result of strings.
pub open spec fn outcome_text(r: Result<String, String>) -> Result<Seq<char>, Seq<char>> {
    match r {
        Ok(s) => Ok(s@),
        Err(m) => Err(m@),
    }
}

/// `Context::from_serialize`: a context from a JSON value, which succeeds
/// exactly for objects and then holds the object's values; the error is
/// tera's message.
#[verifier::external_body]
fn tera_context(context: &JsonValue) -> (r: Result<tera::Context, String>)
    ensures
        r is Ok <==> context@ is Obj,
        r matches Ok(c) ==> tera_context_data(c) == tera_context_of(context@),
{
    tera::Context::from_serialize(crate::json::to_serde(context)).map_err(|e| e.to_string())
}

/// `Tera::render`: renders the registered template `name` with the data of
/// `context`; a name that is not registered is an error, and the error is
/// tera's message. The outcome is one that Tera can give for these
/// templates, name and data (`tera_may_render`); which one, and the text, are
/// left unsaid: they depend on functions such as `now` and `get_random`.
#[verifier::external_body]
fn tera_render(t: &tera::Tera, name: &str, context: &tera::Context) -> (r: Result<String, String>)
    ensures
        !tera_templates(*t).contains_key(name@) ==> r is Err,
        tera_may_render(tera_templates(*t), name@, tera_context_data(*context), outcome_text(r)),
{
    t.render(name, context).map_err(|e| e.to_string())
}

fn prefixed(prefix: &str, message: &str) -> (r: String)
    ensures
        r@ == prefix@ + message@,
{
    let mut m = chars_of(prefix);
    extend(&mut m, &chars_of(message));
    to_string(&m)
}

/// Whether a file with extension `ext` is a template: `html`, `tera` or `css`.
pub fn is_template_extension(ext: &str) -> (b: bool)
    ensures
        b == (ext@ == "html"@ || ext@ == "tera"@ || ext@ == "css"@),
{
    let e = chars_of(ext);
    chars_eq(&e, &chars_of("html")) || chars_eq(&e, &chars_of("tera")) || chars_eq(&e, &chars_of("css"))
}

/// The name a template file is registered under: its path relative to the
/// templates root, with `\\` separators written as `/`.
pub fn template_key(relative: &str) -> (r: String)
    ensures
        r@ == replace_all(relative@, seq!['\\'], seq!['/']),
{
    let sep = vec!['\\'];
    let slash = vec!['/'];
    assert(sep@ =~= seq!['\\']);
    assert(slash@ =~= seq!['/']);
    to_string(&replace(&chars_of(relative), &sep, &slash))
}

/// What rendering `name` with the JSON object `context` gave, as `r`, on an
/// engine holding `templates`: Tera's text, or its error after
/// `template render failed: `, either an outcome Tera can give for the
/// context's values; a template the engine does not hold is an error.
pub open spec fn rendered(
    templates: Map<Seq<char>, Seq<char>>,
    name: Seq<char>,
    context: Json,
    r: Result<String, String>,
) -> bool {
    let prefix = "template render failed: "@;
    &&& !templates.contains_key(name) ==> r is Err
    &&& match r {
        Ok(html) => tera_may_render(templates, name, tera_context_of(context), Ok(html@)),
        Err(m) => has_prefix(m@, prefix) && tera_may_render(
            templates,
            name,
            tera_context_of(context),
            Err(m@.skip(prefix.len() as int)),
        ),
    }
}

/// The template engine built for one templates root, kept between renders.
pub struct TemplateCache {
    entry: Option<(String, tera::Tera)>,
}

impl TemplateCache {
    /// The root the cached engine was built for, if any.
    pub closed spec fn cached_root(&self) -> Option<Seq<char>> {
        match self.entry {
            Some(e) => Some(e.0@),
            None => None,
        }
    }

    /// The templates of the cached engine, if any.
    pub closed spec fn cached_templates(&self) -> Option<Map<Seq<char>, Seq<char>>> {
        match self.entry {
            Some(e) => Some(tera_templates(e.1)),
            None => None,
        }
    }

    /// No engine built yet.
    pub fn new() -> (c: TemplateCache)
        ensures
            c.cached_root() is None,
    {
        TemplateCache { entry: None }
    }

    /// Clear the cached engine (useful in tests or hot-reload).
    pub fn clear_template_cache(&mut self)
        ensures
            final(self).cached_root() is None,
    {
        self.entry = None;
    }

    /// Whether an engine for `root` is ready.
    pub fn engine_ready(&self, root: &str) -> (b: bool)
        ensures
            b == (self.cached_root() == Some(root@)),
    {
        match &self.entry {
            Some(e) => chars_eq(&chars_of(e.0.as_str()), &chars_of(root)),
            None => false,
        }
    }

    /// Builds the engine for `root` from `templates` (name, text) and keeps
    /// it; it succeeds exactly when Tera accepts the templates on an empty
    /// engine (always so for no templates). On a template error nothing
    /// changes and the error says so.
    pub fn install(&mut self, root: &str, templates: &Vec<(String, String)>) -> (r: Result<(), String>)
        ensures
            r is Ok <==> tera_accepts(no_templates(), template_pairs(templates@)),
            templates@.len() == 0 ==> r is Ok,
            r is Ok ==> final(self).cached_root() == Some(root@) && final(self).cached_templates() == Some(
                with_templates(no_templates(), template_pairs(templates@)),
            ),
            r is Err ==> final(self).cached_root() == old(self).cached_root() && final(self).cached_templates()
                == old(self).cached_templates(),
            r matches Err(m) ==> has_prefix(m@, "failed to load templates: "@),
    {
        let mut t = tera_new();
        match tera_add_raw(&mut t, templates) {
            Ok(()) => {
                self.entry = Some((root.to_string(), t));
                Ok(())
            },
            Err(e) => {
                let m = prefixed("failed to load templates: ", e.as_str());
                assert(m@.take("failed to load templates: "@.len() as int) =~= "failed to load templates: "@);
                Err(m)
            },
        }
    }

    /// Render the template `name` of the templates root `root` with a JSON
    /// object as context. The engine is built from `templates` (name, text)
    /// only when the cached one belongs to another root or none is cached;
    /// a template error leaves the cache as it was.
    pub fn render_template(
        &mut self,
        root: &str,
        templates: &Vec<(String, String)>,
        name: &str,
        context: &JsonValue,
    ) -> (r: Result<String, String>)
        ensures
            old(self).cached_root() == Some(root@) ==> final(self).cached_root() == old(self).cached_root()
                && final(self).cached_templates() == old(self).cached_templates(),
            old(self).cached_root() != Some(root@) && tera_accepts(no_templates(), template_pairs(templates@))
                ==> final(self).cached_root() == Some(root@) && final(self).cached_templates() == Some(
                with_templates(no_templates(), template_pairs(templates@)),
            ),
            old(self).cached_root() != Some(root@) && !tera_accepts(no_templates(), template_pairs(templates@))
                ==> r is Err && final(self).cached_root() == old(self).cached_root()
                && final(self).cached_templates() == old(self).cached_templates(),
            final(self).cached_root() == Some(root@) || (r is Err && final(self).cached_root()
                == old(self).cached_root()),
            !(context@ is Obj) ==> r is Err,
            context@ is Obj && final(self).cached_root() == Some(root@) ==> rendered(
                final(self).cached_templates()->0,
                name@,
                context@,
                r,
            ),
    {
        if !self.engine_ready(root) {
            let installed = self.install(root, templates);
            if let Err(e) = installed {
                return Err(e);
            }
        }
        self.render(name, context)
    }

    /// Render the template `name` with a JSON object as context; a context
    /// that is not an object is an error, and so are a template the engine
    /// does not hold and a failed render.
    pub fn render(&self, name: &str, context: &JsonValue) -> (r: Result<String, String>)
        requires
            self.cached_root() is Some,
        ensures
            !(context@ is Obj) ==> (r matches Err(m) && has_prefix(m@, "invalid template context: "@)),
            context@ is Obj ==> rendered(self.cached_templates()->0, name@, context@, r),
    {
        let ctx = match tera_context(context) {
            Ok(c) => c,
            Err(e) => {
                let m = prefixed("invalid template context: ", e.as_str());
                assert(m@.take("invalid template context: "@.len() as int) =~= "invalid template context: "@);
                return Err(m);
            },
        };
        match &self.entry {
            Some(e) => match tera_render(&e.1, name, &ctx) {
                Ok(html) => Ok(html),
                Err(err) => {
                    let m = prefixed("template render failed: ", err.as_str());
                    assert(m@.take("template render failed: "@.len() as int) =~= "template render failed: "@);
                    assert(m@.skip("template render failed: "@.len() as int) =~= err@);
                    Err(m)
                },
            },
            None => Err(String::new()),
        }
    }
}

} // verus!
