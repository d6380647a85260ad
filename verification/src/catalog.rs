//! The stack catalog: the fixed set of supported stacks and the file
//! templates each one contributes.

use vstd::prelude::*;

verus! {

/// The identifiers of the supported stacks, in their fixed display order.
pub open spec fn catalog_ids() -> Seq<Seq<char>> {
    seq!["vue"@, "nuxt"@, "fastapi"@]
}

/// Whether `id` names a stack of the catalog.
pub open spec fn is_stack(id: Seq<char>) -> bool {
    catalog_ids().contains(id)
}

/// Character-by-character string equality, decided without trusting any
/// outside code.
pub fn str_eq(a: &str, b: &str) -> (r: bool)
    ensures
        r == (a@ == b@),
{
    let a_len = a.unicode_len();
    let b_len = b.unicode_len();
    if a_len != b_len {
        return false;
    }
    let mut i: usize = 0;
    while i < a_len
        invariant
            a_len == a@.len(),
            b_len == b@.len(),
            a_len == b_len,
            i <= a_len,
            forall|j: int| 0 <= j < i ==> a@[j] == b@[j],
        decreases a_len - i,
    {
        if a.get_char(i) != b.get_char(i) {
            return false;
        }
        i = i + 1;
    }
    proof {
        assert(a@ =~= b@);
    }
    true
}

/// The identifiers of every stack of the catalog, in display order.
pub fn get_available_stacks() -> (r: Vec<String>)
    ensures
        r.deep_view() == catalog_ids(),
{
    let mut r: Vec<String> = Vec::new();
    r.push("vue".to_owned());
    r.push("nuxt".to_owned());
    r.push("fastapi".to_owned());
    proof {
        assert(r.deep_view() =~= catalog_ids());
    }
    r
}

/// A file a stack contributes: a path relative to the target directory and
/// the literal text to place there.
#[derive(Debug)]
pub struct FileTemplate {
    pub path: String,
    pub content: String,
}

/// The mathematical shape of a file template.
#[verifier::ext_equal]
pub struct FileSpec {
    pub path: Seq<char>,
    pub content: Seq<char>,
}

impl View for FileTemplate {
    type V = FileSpec;

    open spec fn view(&self) -> FileSpec {
        FileSpec { path: self.path@, content: self.content@ }
    }
}

impl DeepView for FileTemplate {
    type V = FileSpec;

    open spec fn deep_view(&self) -> FileSpec {
        self@
    }
}

/// A stack's descriptor: its display name, a short description, and the
/// files it contributes.
#[derive(Debug)]
pub struct StackConfig {
    pub name: String,
    pub description: String,
    pub files: Vec<FileTemplate>,
}

/// An error of this library.
#[derive(Debug)]
pub enum ConfigError {
    /// The given identifier names no stack of the catalog.
    UnknownStack(String),
}

/// The name of a stack's build-orchestration fragment file. Each stack uses
/// its own name, so fragments of different stacks never collide.
pub open spec fn fragment_file_name(id: Seq<char>) -> Seq<char> {
    id + ".mk"@
}

/// The text of a stack's build-orchestration fragment. Every target is
/// prefixed with the stack identifier, so fragments can be merged without
/// duplicate target names.
pub open spec fn fragment_content(id: Seq<char>) -> Seq<char> {
    if id == "vue"@ {
        "vue-install:\n\tnpm install\n\nvue-dev:\n\tnpm run dev\n\nvue-build:\n\tnpm run build\n"@
    } else if id == "nuxt"@ {
        "nuxt-install:\n\tnpm install\n\nnuxt-dev:\n\tnpm run dev\n\nnuxt-build:\n\tnpm run build\n"@
    } else if id == "fastapi"@ {
        "fastapi-install:\n\tpip install -r requirements.txt\n\nfastapi-dev:\n\tuvicorn main:app --reload\n\nfastapi-test:\n\tpytest\n"@
    } else {
        Seq::<char>::empty()
    }
}

/// The text of a stack's container build file. All stacks write it under the
/// one conventional name, so of several applied stacks the last one wins.
pub open spec fn dockerfile_content(id: Seq<char>) -> Seq<char> {
    if id == "vue"@ {
        "FROM node:20-alpine\nWORKDIR /app\nCOPY . .\nRUN npm install && npm run build\nCMD [\"npm\", \"run\", \"preview\"]\n"@
    } else if id == "nuxt"@ {
        "FROM node:20-alpine\nWORKDIR /app\nCOPY . .\nRUN npm install && npm run build\nCMD [\"node\", \".output/server/index.mjs\"]\n"@
    } else if id == "fastapi"@ {
        "FROM python:3.12-slim\nWORKDIR /app\nCOPY . .\nRUN pip install -r requirements.txt\nCMD [\"uvicorn\", \"main:app\", \"--host\", \"0.0.0.0\"]\n"@
    } else {
        Seq::<char>::empty()
    }
}

/// The text of a stack's container ignore file, under the one conventional
/// name: as with the container build file, the last applied stack wins.
pub open spec fn dockerignore_content(id: Seq<char>) -> Seq<char> {
    if id == "vue"@ {
        "node_modules\ndist\n.git\n*.log\n"@
    } else if id == "nuxt"@ {
        "node_modules\n.nuxt\n.output\n.git\n*.log\n"@
    } else if id == "fastapi"@ {
        "__pycache__\n.venv\n.git\n*.log\n"@
    } else {
        Seq::<char>::empty()
    }
}

/// A stack's display name.
pub open spec fn display_name(id: Seq<char>) -> Seq<char> {
    if id == "vue"@ {
        "Vue"@
    } else if id == "nuxt"@ {
        "Nuxt"@
    } else if id == "fastapi"@ {
        "FastAPI"@
    } else {
        Seq::<char>::empty()
    }
}

/// A stack's human description.
pub open spec fn stack_description(id: Seq<char>) -> Seq<char> {
    if id == "vue"@ {
        "Vue 3 application with TypeScript"@
    } else if id == "nuxt"@ {
        "Nuxt 3 application with TypeScript"@
    } else if id == "fastapi"@ {
        "REST API with FastAPI and Python"@
    } else {
        Seq::<char>::empty()
    }
}

/// The files a stack contributes, in the order they are written: first the
/// stack's own build fragment, then the container build file, then the
/// container ignore file.
pub open spec fn stack_files(id: Seq<char>) -> Seq<FileSpec> {
    seq![
        FileSpec { path: fragment_file_name(id), content: fragment_content(id) },
        FileSpec { path: "Dockerfile"@, content: dockerfile_content(id) },
        FileSpec { path: ".dockerignore"@, content: dockerignore_content(id) },
    ]
}

/// The three identifiers of the catalog are pairwise distinct.
pub proof fn lemma_ids_distinct()
    ensures
        "vue"@ != "nuxt"@,
        "vue"@ != "fastapi"@,
        "nuxt"@ != "fastapi"@,
{
    reveal_strlit("vue");
    reveal_strlit("nuxt");
    reveal_strlit("fastapi");
    assert("vue"@.len() == 3);
    assert("nuxt"@.len() == 4);
    assert("fastapi"@.len() == 7);
}

/// Resolve a stack identifier to its descriptor. Exactly the identifiers of
/// the catalog resolve; every other name is an `UnknownStack` error.
pub fn get_stack_config(stack_name: &str) -> (r: Result<StackConfig, ConfigError>)
    ensures
        r is Ok <==> is_stack(stack_name@),
        r matches Ok(c) ==> c.name@ == display_name(stack_name@)
            && c.description@ == stack_description(stack_name@)
            && c.files.deep_view() == stack_files(stack_name@),
        r matches Err(e) ==> (e matches ConfigError::UnknownStack(n) && n@ == stack_name@),
{
    proof {
        lemma_ids_distinct();
        assert(catalog_ids()[0] == "vue"@);
        assert(catalog_ids()[1] == "nuxt"@);
        assert(catalog_ids()[2] == "fastapi"@);
    }
    if str_eq(stack_name, "vue") {
        let mut files: Vec<FileTemplate> = Vec::new();
        files.push(FileTemplate {
            path: "vue.mk".to_owned(),
            content: "vue-install:\n\tnpm install\n\nvue-dev:\n\tnpm run dev\n\nvue-build:\n\tnpm run build\n".to_owned(),
        });
        files.push(FileTemplate {
            path: "Dockerfile".to_owned(),
            content: "FROM node:20-alpine\nWORKDIR /app\nCOPY . .\nRUN npm install && npm run build\nCMD [\"npm\", \"run\", \"preview\"]\n".to_owned(),
        });
        files.push(FileTemplate {
            path: ".dockerignore".to_owned(),
            content: "node_modules\ndist\n.git\n*.log\n".to_owned(),
        });
        proof {
            reveal_strlit("vue");
            reveal_strlit(".mk");
            reveal_strlit("vue.mk");
            assert("vue.mk"@ =~= "vue"@ + ".mk"@);
            assert(files.deep_view() =~~= stack_files(stack_name@));
        }
        Ok(StackConfig {
            name: "Vue".to_owned(),
            description: "Vue 3 application with TypeScript".to_owned(),
            files,
        })
    } else if str_eq(stack_name, "nuxt") {
        let mut files: Vec<FileTemplate> = Vec::new();
        files.push(FileTemplate {
            path: "nuxt.mk".to_owned(),
            content: "nuxt-install:\n\tnpm install\n\nnuxt-dev:\n\tnpm run dev\n\nnuxt-build:\n\tnpm run build\n".to_owned(),
        });
        files.push(FileTemplate {
            path: "Dockerfile".to_owned(),
            content: "FROM node:20-alpine\nWORKDIR /app\nCOPY . .\nRUN npm install && npm run build\nCMD [\"node\", \".output/server/index.mjs\"]\n".to_owned(),
        });
        files.push(FileTemplate {
            path: ".dockerignore".to_owned(),
            content: "node_modules\n.nuxt\n.output\n.git\n*.log\n".to_owned(),
        });
        proof {
            reveal_strlit("nuxt");
            reveal_strlit(".mk");
            reveal_strlit("nuxt.mk");
            assert("nuxt.mk"@ =~= "nuxt"@ + ".mk"@);
            assert(files.deep_view() =~~= stack_files(stack_name@));
        }
        Ok(StackConfig {
            name: "Nuxt".to_owned(),
            description: "Nuxt 3 application with TypeScript".to_owned(),
            files,
        })
    } else if str_eq(stack_name, "fastapi") {
        let mut files: Vec<FileTemplate> = Vec::new();
        files.push(FileTemplate {
            path: "fastapi.mk".to_owned(),
            content: "fastapi-install:\n\tpip install -r requirements.txt\n\nfastapi-dev:\n\tuvicorn main:app --reload\n\nfastapi-test:\n\tpytest\n".to_owned(),
        });
        files.push(FileTemplate {
            path: "Dockerfile".to_owned(),
            content: "FROM python:3.12-slim\nWORKDIR /app\nCOPY . .\nRUN pip install -r requirements.txt\nCMD [\"uvicorn\", \"main:app\", \"--host\", \"0.0.0.0\"]\n".to_owned(),
        });
        files.push(FileTemplate {
            path: ".dockerignore".to_owned(),
            content: "__pycache__\n.venv\n.git\n*.log\n".to_owned(),
        });
        proof {
            reveal_strlit("fastapi");
            reveal_strlit(".mk");
            reveal_strlit("fastapi.mk");
            assert("fastapi.mk"@ =~= "fastapi"@ + ".mk"@);
            assert(files.deep_view() =~~= stack_files(stack_name@));
        }
        Ok(StackConfig {
            name: "FastAPI".to_owned(),
            description: "REST API with FastAPI and Python".to_owned(),
            files,
        })
    } else {
        Err(ConfigError::UnknownStack(stack_name.to_owned()))
    }
}

} // verus!
