//! Launch configuration, as plain data: which command starts the server for
//! each language, and which file names and extensions map to which
//! language.  Loading this from a file is the embedding application's
//! business; the lookups themselves are specified here.

use crate::fs::{spec_extension, spec_file_name, LocalPath};
use crate::lsp::LspLang;
use vstd::prelude::*;

verus! {

/// Maps file names and extensions to a language.
pub struct Extension {
    pub file_extension: Vec<String>,
    pub file_names: Vec<String>,
    pub lang: LspLang,
}

/// The launch command of one language's server.
pub struct LspServer {
    pub lang: LspLang,
    pub command: Vec<String>,
}

pub struct LspConfig {
    pub servers: Vec<LspServer>,
}

pub struct Config {
    pub lsp: LspConfig,
    pub extensions: Vec<Extension>,
}

/// Some element of `v` reads `s`.
pub open spec fn spec_has_string(v: Seq<String>, s: Seq<char>) -> bool {
    exists|k: int| 0 <= k < v.len() && (#[trigger] v[k])@ == s
}

fn has_string(v: &Vec<String>, s: &String) -> (r: bool)
    ensures
        r == spec_has_string(v@, s@),
{
    let mut i: usize = 0;
    while i < v.len()
        invariant
            i <= v@.len(),
            forall|k: int| 0 <= k < i ==> (#[trigger] v@[k])@ != s@,
        decreases v@.len() - i,
    {
        if v[i] == *s {
            return true;
        }
        i = i + 1;
    }
    false
}

/// The first mapping whose file names include `name`.
pub open spec fn spec_ext_by_name(exts: Seq<Extension>, name: Seq<char>) -> Option<int>
    decreases exts.len(),
{
    if exts.len() == 0 {
        None
    } else if spec_has_string(exts[0].file_names@, name) {
        Some(0)
    } else {
        match spec_ext_by_name(exts.drop_first(), name) {
            Some(i) => Some(i + 1),
            None => None,
        }
    }
}

/// The first mapping whose extensions include `ext`.
pub open spec fn spec_ext_by_extension(exts: Seq<Extension>, ext: Seq<char>) -> Option<int>
    decreases exts.len(),
{
    if exts.len() == 0 {
        None
    } else if spec_has_string(exts[0].file_extension@, ext) {
        Some(0)
    } else {
        match spec_ext_by_extension(exts.drop_first(), ext) {
            Some(i) => Some(i + 1),
            None => None,
        }
    }
}

proof fn lemma_ext_by_name_props(exts: Seq<Extension>, name: Seq<char>)
    ensures
        match spec_ext_by_name(exts, name) {
            Some(i) => 0 <= i < exts.len() && spec_has_string(exts[i].file_names@, name)
                && forall|j: int|
                0 <= j < i ==> !spec_has_string((#[trigger] exts[j]).file_names@, name),
            None => forall|j: int|
                0 <= j < exts.len() ==> !spec_has_string(
                    (#[trigger] exts[j]).file_names@,
                    name,
                ),
        },
    decreases exts.len(),
{
    if exts.len() == 0 {
    } else if spec_has_string(exts[0].file_names@, name) {
    } else {
        lemma_ext_by_name_props(exts.drop_first(), name);
        let t = exts.drop_first();
        match spec_ext_by_name(t, name) {
            Some(i) => {
                assert(exts[i + 1] == t[i]);
                assert forall|j: int| 0 <= j < i + 1 implies !spec_has_string(
                    (#[trigger] exts[j]).file_names@,
                    name,
                ) by {
                    if j >= 1 {
                        assert(exts[j] == t[j - 1]);
                        assert(!spec_has_string(t[j - 1].file_names@, name));
                    }
                }
            },
            None => {
                assert forall|j: int| 0 <= j < exts.len() implies !spec_has_string(
                    (#[trigger] exts[j]).file_names@,
                    name,
                ) by {
                    if j >= 1 {
                        assert(exts[j] == t[j - 1]);
                        assert(!spec_has_string(t[j - 1].file_names@, name));
                    }
                }
            },
        }
    }
}

proof fn lemma_ext_by_extension_props(exts: Seq<Extension>, ext: Seq<char>)
    ensures
        match spec_ext_by_extension(exts, ext) {
            Some(i) => 0 <= i < exts.len() && spec_has_string(exts[i].file_extension@, ext)
                && forall|j: int|
                0 <= j < i ==> !spec_has_string((#[trigger] exts[j]).file_extension@, ext),
            None => forall|j: int|
                0 <= j < exts.len() ==> !spec_has_string(
                    (#[trigger] exts[j]).file_extension@,
                    ext,
                ),
        },
    decreases exts.len(),
{
    if exts.len() == 0 {
    } else if spec_has_string(exts[0].file_extension@, ext) {
    } else {
        lemma_ext_by_extension_props(exts.drop_first(), ext);
        let t = exts.drop_first();
        match spec_ext_by_extension(t, ext) {
            Some(i) => {
                assert(exts[i + 1] == t[i]);
                assert forall|j: int| 0 <= j < i + 1 implies !spec_has_string(
                    (#[trigger] exts[j]).file_extension@,
                    ext,
                ) by {
                    if j >= 1 {
                        assert(exts[j] == t[j - 1]);
                        assert(!spec_has_string(t[j - 1].file_extension@, ext));
                    }
                }
            },
            None => {
                assert forall|j: int| 0 <= j < exts.len() implies !spec_has_string(
                    (#[trigger] exts[j]).file_extension@,
                    ext,
                ) by {
                    if j >= 1 {
                        assert(exts[j] == t[j - 1]);
                        assert(!spec_has_string(t[j - 1].file_extension@, ext));
                    }
                }
            },
        }
    }
}

/// The language a path maps to: a file-name mapping wins, an extension
/// mapping comes second, plain text is the fallback.
pub open spec fn spec_lsp_lang(exts: Seq<Extension>, path_text: Seq<char>) -> LspLang {
    match spec_ext_by_name(exts, spec_file_name(path_text)) {
        Some(i) => exts[i].lang,
        None => match spec_extension(path_text) {
            Some(e) => match spec_ext_by_extension(exts, e) {
                Some(i) => exts[i].lang,
                None => LspLang::PlainText,
            },
            None => LspLang::PlainText,
        },
    }
}

impl Config {
    /// The language of a document, by the configured mappings.
    pub fn lsp_lang(&self, path: &LocalPath) -> (r: LspLang)
        ensures
            r == spec_lsp_lang(self.extensions@, path.spec_text()),
    {
        let name = path.file_name();
        proof {
            lemma_ext_by_name_props(self.extensions@, name@);
        }
        match self.find_by_name(&name) {
            Some(i) => self.extensions[i].lang,
            None => match path.extension() {
                Some(ext) => {
                    proof {
                        lemma_ext_by_extension_props(self.extensions@, ext@);
                    }
                    match self.find_by_extension(&ext) {
                        Some(i) => self.extensions[i].lang,
                        None => LspLang::PlainText,
                    }
                },
                None => LspLang::PlainText,
            },
        }
    }

    fn find_by_name(&self, name: &String) -> (r: Option<usize>)
        ensures
            match r {
                Some(i) => spec_ext_by_name(self.extensions@, name@) == Some(i as int),
                None => spec_ext_by_name(self.extensions@, name@) is None,
            },
    {
        let mut i: usize = 0;
        while i < self.extensions.len()
            invariant
                i <= self.extensions@.len(),
                forall|j: int|
                    0 <= j < i ==> !spec_has_string(
                        (#[trigger] self.extensions@[j]).file_names@,
                        name@,
                    ),
            decreases self.extensions@.len() - i,
        {
            if has_string(&self.extensions[i].file_names, name) {
                proof {
                    lemma_ext_by_name_props(self.extensions@, name@);
                    match spec_ext_by_name(self.extensions@, name@) {
                        Some(k) => {
                            if k != i {
                                if k < i {
                                    assert(!spec_has_string(
                                        self.extensions@[k].file_names@,
                                        name@,
                                    ));
                                } else {
                                    assert(!spec_has_string(
                                        self.extensions@[i as int].file_names@,
                                        name@,
                                    ));
                                }
                            }
                        },
                        None => {
                            assert(!spec_has_string(
                                self.extensions@[i as int].file_names@,
                                name@,
                            ));
                        },
                    }
                }
                return Some(i);
            }
            i = i + 1;
        }
        proof {
            lemma_ext_by_name_props(self.extensions@, name@);
            if spec_ext_by_name(self.extensions@, name@) is Some {
                let k = spec_ext_by_name(self.extensions@, name@)->Some_0;
                assert(!spec_has_string(self.extensions@[k].file_names@, name@));
            }
        }
        None
    }

    fn find_by_extension(&self, ext: &String) -> (r: Option<usize>)
        ensures
            match r {
                Some(i) => spec_ext_by_extension(self.extensions@, ext@) == Some(i as int),
                None => spec_ext_by_extension(self.extensions@, ext@) is None,
            },
    {
        let mut i: usize = 0;
        while i < self.extensions.len()
            invariant
                i <= self.extensions@.len(),
                forall|j: int|
                    0 <= j < i ==> !spec_has_string(
                        (#[trigger] self.extensions@[j]).file_extension@,
                        ext@,
                    ),
            decreases self.extensions@.len() - i,
        {
            if has_string(&self.extensions[i].file_extension, ext) {
                proof {
                    lemma_ext_by_extension_props(self.extensions@, ext@);
                    match spec_ext_by_extension(self.extensions@, ext@) {
                        Some(k) => {
                            if k != i {
                                if k < i {
                                    assert(!spec_has_string(
                                        self.extensions@[k].file_extension@,
                                        ext@,
                                    ));
                                } else {
                                    assert(!spec_has_string(
                                        self.extensions@[i as int].file_extension@,
                                        ext@,
                                    ));
                                }
                            }
                        },
                        None => {
                            assert(!spec_has_string(
                                self.extensions@[i as int].file_extension@,
                                ext@,
                            ));
                        },
                    }
                }
                return Some(i);
            }
            i = i + 1;
        }
        proof {
            lemma_ext_by_extension_props(self.extensions@, ext@);
            if spec_ext_by_extension(self.extensions@, ext@) is Some {
                let k = spec_ext_by_extension(self.extensions@, ext@)->Some_0;
                assert(!spec_has_string(self.extensions@[k].file_extension@, ext@));
            }
        }
        None
    }
}

/// The first configured server for `lang`.
pub open spec fn spec_server_for(servers: Seq<LspServer>, lang: LspLang) -> Option<int>
    decreases servers.len(),
{
    if servers.len() == 0 {
        None
    } else if servers[0].lang == lang {
        Some(0)
    } else {
        match spec_server_for(servers.drop_first(), lang) {
            Some(i) => Some(i + 1),
            None => None,
        }
    }
}

proof fn lemma_server_for_props(servers: Seq<LspServer>, lang: LspLang)
    ensures
        match spec_server_for(servers, lang) {
            Some(i) => 0 <= i < servers.len() && servers[i].lang == lang && forall|j: int|
                0 <= j < i ==> (#[trigger] servers[j]).lang != lang,
            None => forall|j: int| 0 <= j < servers.len() ==> (#[trigger] servers[j]).lang
                != lang,
        },
    decreases servers.len(),
{
    if servers.len() == 0 {
    } else if servers[0].lang == lang {
    } else {
        lemma_server_for_props(servers.drop_first(), lang);
        let t = servers.drop_first();
        match spec_server_for(t, lang) {
            Some(i) => {
                assert(servers[i + 1] == t[i]);
                assert forall|j: int| 0 <= j < i + 1 implies (#[trigger] servers[j]).lang
                    != lang by {
                    if j >= 1 {
                        assert(servers[j] == t[j - 1]);
                        assert(t[j - 1].lang != lang);
                    }
                }
            },
            None => {
                assert forall|j: int| 0 <= j < servers.len() implies (#[trigger] servers[j]).lang
                    != lang by {
                    if j >= 1 {
                        assert(servers[j] == t[j - 1]);
                        assert(t[j - 1].lang != lang);
                    }
                }
            },
        }
    }
}

impl LspLang {
    /// The launch command configured for this language, if any: a language
    /// without one simply gets no client.
    pub fn cmd<'a>(&self, config: &'a Config) -> (r: Option<&'a Vec<String>>)
        ensures
            match spec_server_for(config.lsp.servers@, *self) {
                Some(i) => r matches Some(c) && c@ == config.lsp.servers@[i].command@,
                None => r is None,
            },
    {
        proof {
            lemma_server_for_props(config.lsp.servers@, *self);
        }
        let servers = &config.lsp.servers;
        let mut i: usize = 0;
        while i < servers.len()
            invariant
                i <= servers@.len(),
                forall|j: int| 0 <= j < i ==> (#[trigger] servers@[j]).lang != *self,
                servers == &config.lsp.servers,
            decreases servers@.len() - i,
        {
            if servers[i].lang == *self {
                proof {
                    lemma_server_for_props(servers@, *self);
                    match spec_server_for(servers@, *self) {
                        Some(k) => {
                            if k < i {
                                assert(servers@[k].lang != *self);
                            }
                            if k > i {
                                assert(servers@[i as int].lang != *self);
                            }
                        },
                        None => {
                            assert(servers@[i as int].lang != *self);
                        },
                    }
                }
                return Some(&servers[i].command);
            }
            i = i + 1;
        }
        proof {
            lemma_server_for_props(servers@, *self);
            if spec_server_for(servers@, *self) is Some {
                let k = spec_server_for(servers@, *self)->Some_0;
                assert(servers@[k].lang != *self);
            }
        }
        None
    }
}

} // verus!
