//! The whole program generated for an application struct: what each module
//! contributes, in the places where it belongs.
use vstd::prelude::*;
use crate::corex::{
    Module, Model, Http, DB, Resources, model_static_init_text, http_static_init_text,
    db_static_init_text, resources_static_init_text, HTTP_OPTIONS, HTTP_OPTIONS_EMBED, HTTP_INIT,
    HTTP_INIT_INJECT, HTTP_BOOT, RESOURCES_INIT, RESOURCES_INIT_INJECT,
};
use crate::modelx::{Modelx, DefinitionView};
use crate::rust_names::{model_names_usable, lemma_usable_names_suffice};

verus! {

pub const OPT_HEAD: &'static str = "#[derive(Default, Debug)]\npub struct Opt {\n";

pub const OPT_TAIL: &'static str = "}\n";

pub const APP_HEAD: &'static str = "#[derive(Debug)]\npub struct ";

pub const APP_FIELDS: &'static str = " {\n    options: Opt,\n";

pub const APP_IMPL_HEAD: &'static str = "}\nimpl ";

pub const APP_INIT_HEAD: &'static str = " {\n    pub async fn init(options: Opt) -> Self {\n        Self {\n            options,\n";

pub const APP_INIT_TAIL: &'static str = "        }\n    }\n";

pub const BOOT_HEAD: &'static str = "pub async fn boot(&mut self) {\n";

pub const BOOT_TAIL: &'static str = "}\n";

pub const APP_TAIL: &'static str = "}\n";

/// The items that the modules put at the top level: data structs, HTTP
/// server, database access, resources.
pub open spec fn static_init_text(m: Seq<DefinitionView>) -> Seq<char> {
    model_static_init_text(m) + http_static_init_text(m) + db_static_init_text(m)
        + resources_static_init_text(m)
}

/// The option types and the `Opt` struct.
pub open spec fn options_text() -> Seq<char> {
    HTTP_OPTIONS@ + OPT_HEAD@ + HTTP_OPTIONS_EMBED@ + OPT_TAIL@
}

/// The application struct `name` and its `init` and `boot`.
pub open spec fn app_text(name: Seq<char>) -> Seq<char> {
    APP_HEAD@ + name + APP_FIELDS@ + HTTP_INIT_INJECT@ + RESOURCES_INIT_INJECT@ + APP_IMPL_HEAD@
        + name + APP_INIT_HEAD@ + HTTP_INIT@ + RESOURCES_INIT@ + APP_INIT_TAIL@ + BOOT_HEAD@
        + HTTP_BOOT@ + BOOT_TAIL@ + APP_TAIL@
}

/// The program generated for the application struct `name` and model `m`.
pub open spec fn import_text(name: Seq<char>, m: Seq<DefinitionView>) -> Seq<char> {
    static_init_text(m) + options_text() + app_text(name)
}

fn append_static_init(out: &mut String, modelx: &Modelx)
    requires
        model_names_usable(modelx@),
    ensures
        final(out)@ == old(out)@ + static_init_text(modelx@),
{
    proof {
        lemma_usable_names_suffice(modelx@);
    }
    let ghost start = out@;
    let model_static_init = Model::static_init(modelx);
    let http_static_init = Http::static_init(modelx);
    let db_static_init = DB::static_init(modelx);
    let process_static_init = Resources::static_init(modelx);
    out.append(model_static_init.as_str());
    out.append(http_static_init.as_str());
    out.append(db_static_init.as_str());
    out.append(process_static_init.as_str());
    assert(out@ =~= start + static_init_text(modelx@));
}

fn append_options(out: &mut String, modelx: &Modelx)
    ensures
        final(out)@ == old(out)@ + options_text(),
{
    let ghost start = out@;
    let http_options = Http::options(modelx);
    let http_options_embed = Http::options_embed(modelx);
    out.append(http_options.as_str());
    out.append(OPT_HEAD);
    out.append(http_options_embed.as_str());
    out.append(OPT_TAIL);
    assert(out@ =~= start + options_text());
}

fn append_app(out: &mut String, struct_name: &str, modelx: &Modelx)
    ensures
        final(out)@ == old(out)@ + app_text(struct_name@),
{
    let ghost start = out@;
    let http_init_inject = Http::init_inject(modelx);
    let process_init_inject = Resources::init_inject(modelx);
    let http_init = Http::init(modelx);
    let process_init = Resources::init(modelx);
    let http_boot = Http::boot(modelx);
    out.append(APP_HEAD);
    out.append(struct_name);
    out.append(APP_FIELDS);
    out.append(http_init_inject.as_str());
    out.append(process_init_inject.as_str());
    out.append(APP_IMPL_HEAD);
    out.append(struct_name);
    out.append(APP_INIT_HEAD);
    out.append(http_init.as_str());
    out.append(process_init.as_str());
    out.append(APP_INIT_TAIL);
    out.append(BOOT_HEAD);
    out.append(http_boot.as_str());
    out.append(BOOT_TAIL);
    out.append(APP_TAIL);
    assert(out@ =~= start + app_text(struct_name@));
}

/// The source of the program generated for the application struct named
/// `struct_name` from `modelx`, whose names can all stand where the
/// generated Rust puts them.
pub fn import(struct_name: &str, modelx: &Modelx) -> (r: String)
    requires
        model_names_usable(modelx@),
    ensures
        r@ == import_text(struct_name@, modelx@),
{
    let mut out = String::new();
    append_static_init(&mut out, modelx);
    append_options(&mut out, modelx);
    append_app(&mut out, struct_name, modelx);
    assert(out@ =~= import_text(struct_name@, modelx@));
    out
}

/// The source generated for the application struct `struct_name` from
/// `modelx`, or `None` where some name of the model cannot stand where the
/// generated Rust puts it.
pub fn import_checked(struct_name: &str, modelx: &Modelx) -> (r: Option<String>)
    ensures
        model_names_usable(modelx@) ==> (r matches Some(s) && s@ == import_text(struct_name@, modelx@)),
        !model_names_usable(modelx@) ==> r is None,
{
    if modelx.names_usable() {
        Some(import(struct_name, modelx))
    } else {
        None
    }
}

} // verus!
