//! The configuration-application engine.
//!
//! Applying a stack resolves its descriptor in the catalog and records one
//! write per contributed file in a [`FileStore`]; applying several stacks
//! additionally records one merged build-orchestration file whose content
//! concatenates every stack's fragment under a delimiting header. Writes at
//! the same path follow last-write-wins, as the store's map view states.

use vstd::prelude::*;

use crate::catalog::ConfigError;
use crate::catalog::catalog_ids;
use crate::catalog::dockerfile_content;
use crate::catalog::dockerignore_content;
use crate::catalog::fragment_content;
use crate::catalog::fragment_file_name;
use crate::catalog::get_stack_config;
use crate::catalog::is_stack;
use crate::catalog::stack_files;
use crate::catalog::str_eq;
use crate::store::FileStore;

verus! {

/// The full path of `rel` inside the directory `dir`.
pub open spec fn joined(dir: Seq<char>, rel: Seq<char>) -> Seq<char> {
    dir + "/"@ + rel
}

/// The store map after one stack is applied to `dir`: its three files are
/// written in order, the build fragment first.
pub open spec fn store_after_stack(
    m: Map<Seq<char>, Seq<char>>,
    id: Seq<char>,
    dir: Seq<char>,
) -> Map<Seq<char>, Seq<char>> {
    m.insert(joined(dir, fragment_file_name(id)), fragment_content(id)).insert(
        joined(dir, "Dockerfile"@),
        dockerfile_content(id),
    ).insert(joined(dir, ".dockerignore"@), dockerignore_content(id))
}

/// The store map after a list of stacks is applied to `dir`, first to last.
pub open spec fn store_after_stacks(
    m: Map<Seq<char>, Seq<char>>,
    ids: Seq<Seq<char>>,
    dir: Seq<char>,
) -> Map<Seq<char>, Seq<char>>
    decreases ids.len(),
{
    if ids.len() == 0 {
        m
    } else {
        store_after_stack(store_after_stacks(m, ids.drop_last(), dir), ids.last(), dir)
    }
}

/// The delimiting header above one stack's section of the merged build file.
pub open spec fn fragment_header(id: Seq<char>) -> Seq<char> {
    "# ==== stack: "@ + id + " ====\n"@
}

/// The merged build-orchestration file: each stack's fragment in order, under
/// its own header, so each section stays attributable to its stack.
pub open spec fn merged_makefile(ids: Seq<Seq<char>>) -> Seq<char>
    decreases ids.len(),
{
    if ids.len() == 0 {
        Seq::<char>::empty()
    } else {
        merged_makefile(ids.drop_last()) + fragment_header(ids.last()) + fragment_content(
            ids.last(),
        ) + "\n"@
    }
}

/// The identifiers of `ids` that name a stack of the catalog, in order.
pub open spec fn known_ids(ids: Seq<Seq<char>>) -> Seq<Seq<char>> {
    ids.filter(|id: Seq<char>| is_stack(id))
}

/// The store map after a whole multi-stack request on `dir`: every known
/// stack applied in order, then the merged build file over the known stacks.
pub open spec fn store_after_all(
    m: Map<Seq<char>, Seq<char>>,
    ids: Seq<Seq<char>>,
    dir: Seq<char>,
) -> Map<Seq<char>, Seq<char>> {
    store_after_stacks(m, known_ids(ids), dir).insert(
        joined(dir, "Makefile"@),
        merged_makefile(known_ids(ids)),
    )
}

/// The full path of `rel` inside the directory `dir`.
pub fn join_path(dir: &str, rel: &str) -> (r: String)
    ensures
        r@ == joined(dir@, rel@),
{
    let mut r = dir.to_owned();
    r.append("/");
    r.append(rel);
    r
}

/// Whether `name` identifies a stack of the catalog.
pub fn is_valid_stack(name: &str) -> (r: bool)
    ensures
        r == is_stack(name@),
{
    proof {
        assert(catalog_ids()[0] == "vue"@);
        assert(catalog_ids()[1] == "nuxt"@);
        assert(catalog_ids()[2] == "fastapi"@);
    }
    let r = str_eq(name, "vue") || str_eq(name, "nuxt") || str_eq(name, "fastapi");
    proof {
        if !r {
            assert forall|i: int| 0 <= i < catalog_ids().len() implies catalog_ids()[i]
                != name@ by {}
        }
    }
    r
}

/// Apply one stack's configuration to a target directory: resolve the
/// descriptor, then record a write for each of its files, in order. Returns
/// the written relative paths; an unknown identifier leaves the store
/// untouched.
pub fn apply_stack_config(stack: &str, target_path: &str, store: &mut FileStore) -> (r: Result<
    Vec<String>,
    ConfigError,
>)
    ensures
        r is Ok <==> is_stack(stack@),
        r matches Ok(paths) ==> paths.deep_view() == seq![
            fragment_file_name(stack@),
            "Dockerfile"@,
            ".dockerignore"@,
        ] && final(store)@ == store_after_stack(old(store)@, stack@, target_path@),
        r matches Err(e) ==> (e matches ConfigError::UnknownStack(n) && n@ == stack@),
        r is Err ==> *final(store) == *old(store),
{
    let config = match get_stack_config(stack) {
        Ok(c) => c,
        Err(e) => {
            return Err(e);
        },
    };
    let ghost files_spec = stack_files(stack@);
    proof {
        assert(config.files.deep_view().len() == config.files@.len());
        assert(files_spec.len() == 3);
    }
    let mut written: Vec<String> = Vec::new();
    let mut i: usize = 0;
    while i < config.files.len()
        invariant
            is_stack(stack@),
            files_spec == stack_files(stack@),
            config.files.deep_view() == files_spec,
            config.files@.len() == 3,
            i <= 3,
            written.deep_view() == files_spec.map_values(
                |f: crate::catalog::FileSpec| f.path,
            ).take(i as int),
            store@ == spec_store_after_files(old(store)@, files_spec.take(i as int), target_path@),
        decreases config.files.len() - i,
    {
        let ghost written_pre = written.deep_view();
        let file = &config.files[i];
        proof {
            assert(file@ == config.files.deep_view()[i as int]);
        }
        let full = join_path(target_path, file.path.as_str());
        store.write(full, file.content.clone());
        written.push(file.path.clone());
        proof {
            let fpaths = files_spec.map_values(|f: crate::catalog::FileSpec| f.path);
            assert(fpaths.take(i + 1).drop_last() =~= fpaths.take(i as int));
            assert(fpaths.take(i + 1) =~= fpaths.take(i as int).push(fpaths[i as int]));
            assert(written.deep_view() =~= written_pre.push(file.path@));
            assert(written.deep_view() =~= fpaths.take(i + 1));
            assert(files_spec.take(i + 1).drop_last() =~= files_spec.take(i as int));
            assert(store@ == spec_store_after_files(
                old(store)@,
                files_spec.take(i + 1),
                target_path@,
            ));
        }
        i = i + 1;
    }
    proof {
        let fpaths = files_spec.map_values(|f: crate::catalog::FileSpec| f.path);
        assert(files_spec.take(3) =~= files_spec);
        assert(fpaths.take(3) =~= fpaths);
        assert(written.deep_view() =~= seq![
            fragment_file_name(stack@),
            "Dockerfile"@,
            ".dockerignore"@,
        ]);
        reveal_with_fuel(spec_store_after_files, 5);
        assert(files_spec.drop_last() =~= files_spec.take(2));
        assert(files_spec.take(2).drop_last() =~= files_spec.take(1));
        assert(files_spec.take(1).drop_last() =~= files_spec.take(0));
        assert(files_spec.take(0) =~= Seq::<crate::catalog::FileSpec>::empty());
        assert(store@ =~= store_after_stack(old(store)@, stack@, target_path@));
    }
    Ok(written)
}

/// One stack's build-orchestration fragment, resolved through the catalog;
/// an unknown identifier yields the empty text, as `fragment_content` does.
fn fragment_string(id: &str) -> (r: String)
    ensures
        r@ == fragment_content(id@),
{
    match get_stack_config(id) {
        Ok(c) => {
            proof {
                assert(c.files.deep_view().len() == c.files@.len());
                assert(c.files@.len() == 3);
                assert(c.files@[0]@ == stack_files(id@)[0]);
            }
            c.files[0].content.clone()
        },
        Err(_) => String::new(),
    }
}

/// Record the merged build-orchestration file for `stacks` in the store: one
/// delimited section per stack, in the given order. Every identifier must be
/// known; an unknown one is reported and nothing is written.
pub fn generate_makefile(stacks: &Vec<String>, target_path: &str, store: &mut FileStore) -> (r:
    Result<(), ConfigError>)
    ensures
        r is Ok <==> (forall|i: int|
            0 <= i < stacks.deep_view().len() ==> is_stack(#[trigger] stacks.deep_view()[i])),
        r is Ok ==> final(store)@ == old(store)@.insert(
            joined(target_path@, "Makefile"@),
            merged_makefile(stacks.deep_view()),
        ),
        r matches Err(e) ==> (e matches ConfigError::UnknownStack(n) && !is_stack(n@)
            && stacks.deep_view().contains(n@)),
        r is Err ==> *final(store) == *old(store),
{
    let ghost ids = stacks.deep_view();
    let mut i: usize = 0;
    while i < stacks.len()
        invariant
            ids == stacks.deep_view(),
            stacks@.len() == ids.len(),
            i <= ids.len(),
            forall|j: int| 0 <= j < i ==> is_stack(#[trigger] ids[j]),
        decreases stacks.len() - i,
    {
        proof {
            assert(ids[i as int] == stacks@[i as int]@);
        }
        if !is_valid_stack(stacks[i].as_str()) {
            return Err(ConfigError::UnknownStack(stacks[i].clone()));
        }
        i = i + 1;
    }
    let mut content = String::new();
    let mut i: usize = 0;
    while i < stacks.len()
        invariant
            ids == stacks.deep_view(),
            stacks@.len() == ids.len(),
            i <= ids.len(),
            forall|j: int| 0 <= j < ids.len() ==> is_stack(#[trigger] ids[j]),
            content@ == merged_makefile(ids.take(i as int)),
        decreases stacks.len() - i,
    {
        let ghost content_pre = content@;
        content.append("# ==== stack: ");
        content.append(stacks[i].as_str());
        content.append(" ====\n");
        let frag = fragment_string(stacks[i].as_str());
        content.append(frag.as_str());
        content.append("\n");
        proof {
            assert(ids.take(i + 1).drop_last() =~= ids.take(i as int));
            assert(ids.take(i + 1).last() == ids[i as int]);
            assert(content@ =~= merged_makefile(ids.take(i + 1)));
        }
        i = i + 1;
    }
    proof {
        assert(ids.take(ids.len() as int) =~= ids);
    }
    let full = join_path(target_path, "Makefile");
    store.write(full, content);
    Ok(())
}

/// Filtering a sequence extended by one element keeps the element exactly
/// when the predicate holds of it.
pub(crate) proof fn lemma_filter_push<A>(s: Seq<A>, x: A, p: spec_fn(A) -> bool)
    ensures
        s.push(x).filter(p) == if p(x) {
            s.filter(p).push(x)
        } else {
            s.filter(p)
        },
{
    reveal(Seq::filter);
    assert(s.push(x).drop_last() =~= s);
    assert(s.push(x).last() == x);
}

/// Apply a whole multi-stack request: each known stack in the given order,
/// then the merged build file over the known stacks. Unknown identifiers are
/// skipped, and the first of them is reported.
pub fn apply_all_stacks(stacks: &Vec<String>, target_path: &str, store: &mut FileStore) -> (r:
    Result<(), ConfigError>)
    ensures
        final(store)@ == store_after_all(old(store)@, stacks.deep_view(), target_path@),
        r is Ok <==> (forall|i: int|
            0 <= i < stacks.deep_view().len() ==> is_stack(#[trigger] stacks.deep_view()[i])),
        r matches Err(e) ==> (e matches ConfigError::UnknownStack(n) && !is_stack(n@) && (
        exists|i: int|
            0 <= i < stacks.deep_view().len() && #[trigger] stacks.deep_view()[i] == n@ && (
            forall|j: int| 0 <= j < i ==> is_stack(#[trigger] stacks.deep_view()[j])))),
{
    let ghost ids = stacks.deep_view();
    let mut valid: Vec<String> = Vec::new();
    let mut unknown: Option<String> = None;
    let ghost mut unknown_at: int = 0;
    let mut i: usize = 0;
    proof {
        assert(ids.take(0) =~= Seq::<Seq<char>>::empty());
        assert(known_ids(ids.take(0)) =~= Seq::<Seq<char>>::empty());
        assert(valid.deep_view() =~= Seq::<Seq<char>>::empty());
    }
    while i < stacks.len()
        invariant
            ids == stacks.deep_view(),
            stacks@.len() == ids.len(),
            i <= ids.len(),
            valid.deep_view() == known_ids(ids.take(i as int)),
            store@ == store_after_stacks(old(store)@, known_ids(ids.take(i as int)), target_path@),
            unknown is None <==> (forall|j: int| 0 <= j < i ==> is_stack(#[trigger] ids[j])),
            unknown matches Some(n) ==> !is_stack(n@) && 0 <= unknown_at < i && ids[unknown_at]
                == n@ && (forall|j: int| 0 <= j < unknown_at ==> is_stack(#[trigger] ids[j])),
        decreases stacks.len() - i,
    {
        let ghost valid_pre = valid.deep_view();
        proof {
            assert(ids[i as int] == stacks@[i as int]@);
        }
        match apply_stack_config(stacks[i].as_str(), target_path, store) {
            Ok(_) => {
                valid.push(stacks[i].clone());
                proof {
                    assert(valid.deep_view() =~= valid_pre.push(ids[i as int]));
                }
            },
            Err(ConfigError::UnknownStack(n)) => {
                if unknown.is_none() {
                    unknown = Some(n);
                    proof {
                        unknown_at = i as int;
                    }
                }
            },
        }
        proof {
            assert(ids.take(i + 1).drop_last() =~= ids.take(i as int));
            assert(ids.take(i + 1) =~= ids.take(i as int).push(ids[i as int]));
            lemma_filter_push(ids.take(i as int), ids[i as int], |id: Seq<char>| is_stack(id));
            if is_stack(ids[i as int]) {
                assert(known_ids(ids.take(i + 1)) =~= known_ids(ids.take(i as int)).push(
                    ids[i as int],
                ));
                assert(known_ids(ids.take(i + 1)).drop_last() =~= known_ids(ids.take(i as int)));
                assert(known_ids(ids.take(i + 1)).last() == ids[i as int]);
                assert(store@ == store_after_stacks(
                    old(store)@,
                    known_ids(ids.take(i + 1)),
                    target_path@,
                ));
            } else {
                assert(known_ids(ids.take(i + 1)) =~= known_ids(ids.take(i as int)));
            }
        }
        i = i + 1;
    }
    proof {
        assert(ids.take(ids.len() as int) =~= ids);
    }
    let gen = generate_makefile(&valid, target_path, store);
    proof {
        assert(gen is Ok) by {
            assert(forall|j: int|
                0 <= j < known_ids(ids).len() ==> is_stack(#[trigger] known_ids(ids)[j]));
        }
    }
    match unknown {
        None => Ok(()),
        Some(n) => Err(ConfigError::UnknownStack(n)),
    }
}

/// The store map after the files of `files` are written to `dir`, in order.
pub open spec fn spec_store_after_files(
    m: Map<Seq<char>, Seq<char>>,
    files: Seq<crate::catalog::FileSpec>,
    dir: Seq<char>,
) -> Map<Seq<char>, Seq<char>>
    decreases files.len(),
{
    if files.len() == 0 {
        m
    } else {
        spec_store_after_files(m, files.drop_last(), dir).insert(
            joined(dir, files.last().path),
            files.last().content,
        )
    }
}

/// Two relative paths joined under one directory are equal only when the
/// relative paths are.
pub proof fn lemma_joined_injective(dir: Seq<char>, a: Seq<char>, b: Seq<char>)
    requires
        joined(dir, a) == joined(dir, b),
    ensures
        a == b,
{
    let ja = joined(dir, a);
    let jb = joined(dir, b);
    reveal_strlit("/");
    assert("/"@.len() == 1);
    assert(ja.len() == dir.len() + 1 + a.len());
    assert(jb.len() == dir.len() + 1 + b.len());
    assert(a =~= ja.subrange(dir.len() as int + 1, ja.len() as int));
    assert(b =~= jb.subrange(dir.len() as int + 1, jb.len() as int));
}

/// Every stack's fragment file name differs from the shared container file
/// names and from the merged build file's name; the shared names also differ
/// from one another.
pub proof fn lemma_file_names_distinct(id: Seq<char>)
    requires
        is_stack(id),
    ensures
        fragment_file_name(id) != "Dockerfile"@,
        fragment_file_name(id) != ".dockerignore"@,
        fragment_file_name(id) != "Makefile"@,
        "Dockerfile"@ != ".dockerignore"@,
        "Dockerfile"@ != "Makefile"@,
        ".dockerignore"@ != "Makefile"@,
{
    reveal_strlit("vue");
    reveal_strlit("nuxt");
    reveal_strlit("fastapi");
    reveal_strlit(".mk");
    reveal_strlit("Dockerfile");
    reveal_strlit(".dockerignore");
    reveal_strlit("Makefile");
    assert("Dockerfile"@.len() == 10);
    assert(".dockerignore"@.len() == 13);
    assert("Makefile"@.len() == 8);
    assert(catalog_ids()[0] == "vue"@);
    assert(catalog_ids()[1] == "nuxt"@);
    assert(catalog_ids()[2] == "fastapi"@);
    assert(id == "vue"@ || id == "nuxt"@ || id == "fastapi"@);
    assert(fragment_file_name(id).len() == id.len() + 3);
    if id == "fastapi"@ {
        assert(fragment_file_name(id)[0] == 'f');
        assert("Dockerfile"@[0] == 'D');
    }
}

/// Two stacks' fragment file names are equal only when the stacks are.
pub proof fn lemma_fragment_names_injective(a: Seq<char>, b: Seq<char>)
    requires
        fragment_file_name(a) == fragment_file_name(b),
    ensures
        a == b,
{
    reveal_strlit(".mk");
    assert(fragment_file_name(a).len() == a.len() + 3);
    assert(fragment_file_name(b).len() == b.len() + 3);
    assert(a =~= fragment_file_name(a).subrange(0, a.len() as int));
    assert(b =~= fragment_file_name(b).subrange(0, b.len() as int));
}

/// Applying a stack creates every relative path its descriptor declares,
/// each with exactly the declared content.
pub proof fn lemma_apply_creates_declared_files(
    m: Map<Seq<char>, Seq<char>>,
    id: Seq<char>,
    dir: Seq<char>,
    k: int,
)
    requires
        is_stack(id),
        0 <= k < stack_files(id).len(),
    ensures
        store_after_stack(m, id, dir).contains_key(joined(dir, stack_files(id)[k].path)),
        store_after_stack(m, id, dir)[joined(dir, stack_files(id)[k].path)] == stack_files(
            id,
        )[k].content,
{
    lemma_file_names_distinct(id);
    assert(joined(dir, fragment_file_name(id)) != joined(dir, "Dockerfile"@)) by {
        if joined(dir, fragment_file_name(id)) == joined(dir, "Dockerfile"@) {
            lemma_joined_injective(dir, fragment_file_name(id), "Dockerfile"@);
        }
    }
    assert(joined(dir, fragment_file_name(id)) != joined(dir, ".dockerignore"@)) by {
        if joined(dir, fragment_file_name(id)) == joined(dir, ".dockerignore"@) {
            lemma_joined_injective(dir, fragment_file_name(id), ".dockerignore"@);
        }
    }
    assert(joined(dir, "Dockerfile"@) != joined(dir, ".dockerignore"@)) by {
        if joined(dir, "Dockerfile"@) == joined(dir, ".dockerignore"@) {
            lemma_joined_injective(dir, "Dockerfile"@, ".dockerignore"@);
        }
    }
}

/// Re-applying a stack to the same target is idempotent in content: the
/// store map after two applications equals the map after one.
pub proof fn lemma_apply_idempotent(m: Map<Seq<char>, Seq<char>>, id: Seq<char>, dir: Seq<char>)
    ensures
        store_after_stack(store_after_stack(m, id, dir), id, dir) == store_after_stack(m, id, dir),
{
    assert(store_after_stack(store_after_stack(m, id, dir), id, dir) =~= store_after_stack(
        m,
        id,
        dir,
    ));
}

/// The joined paths of two distinct relative names under one directory are
/// distinct.
proof fn lemma_joined_distinct(dir: Seq<char>, a: Seq<char>, b: Seq<char>)
    requires
        a != b,
    ensures
        joined(dir, a) != joined(dir, b),
{
    if joined(dir, a) == joined(dir, b) {
        lemma_joined_injective(dir, a, b);
    }
}

/// A whole request of two stacks: the later stack's container build and
/// ignore files survive at their shared names, while the merged build file
/// holds both fragments, each under its own delimiting header.
pub proof fn lemma_two_stack_merge(
    m: Map<Seq<char>, Seq<char>>,
    a: Seq<char>,
    b: Seq<char>,
    dir: Seq<char>,
)
    requires
        is_stack(a),
        is_stack(b),
    ensures
        store_after_all(m, seq![a, b], dir).contains_key(joined(dir, "Dockerfile"@)),
        store_after_all(m, seq![a, b], dir)[joined(dir, "Dockerfile"@)] == dockerfile_content(b),
        store_after_all(m, seq![a, b], dir).contains_key(joined(dir, ".dockerignore"@)),
        store_after_all(m, seq![a, b], dir)[joined(dir, ".dockerignore"@)] == dockerignore_content(
            b,
        ),
        store_after_all(m, seq![a, b], dir).contains_key(joined(dir, "Makefile"@)),
        store_after_all(m, seq![a, b], dir)[joined(dir, "Makefile"@)] == fragment_header(a)
            + fragment_content(a) + "\n"@ + fragment_header(b) + fragment_content(b) + "\n"@,
{
    let ids = seq![a, b];
    assert(known_ids(ids) =~= ids) by {
        reveal(Seq::filter);
        assert(ids.drop_last() =~= seq![a]);
        assert(seq![a].drop_last() =~= Seq::<Seq<char>>::empty());
        assert(seq![a].filter(|id: Seq<char>| is_stack(id)) =~= seq![a]);
    }
    lemma_file_names_distinct(a);
    lemma_file_names_distinct(b);
    lemma_joined_distinct(dir, "Dockerfile"@, ".dockerignore"@);
    lemma_joined_distinct(dir, "Dockerfile"@, "Makefile"@);
    lemma_joined_distinct(dir, ".dockerignore"@, "Makefile"@);
    lemma_joined_distinct(dir, fragment_file_name(b), "Dockerfile"@);
    lemma_joined_distinct(dir, fragment_file_name(b), ".dockerignore"@);
    reveal_with_fuel(store_after_stacks, 4);
    reveal_with_fuel(merged_makefile, 4);
    assert(ids.drop_last() =~= seq![a]);
    assert(seq![a].drop_last() =~= Seq::<Seq<char>>::empty());
    assert(ids.last() == b);
    assert(seq![a].last() == a);
    assert(store_after_stacks(m, Seq::<Seq<char>>::empty(), dir) == m);
    assert(store_after_stacks(m, seq![a], dir) == store_after_stack(m, a, dir));
    assert(store_after_stacks(m, ids, dir) == store_after_stack(
        store_after_stack(m, a, dir),
        b,
        dir,
    ));
    assert(merged_makefile(ids) =~= fragment_header(a) + fragment_content(a) + "\n"@
        + fragment_header(b) + fragment_content(b) + "\n"@) by {
        assert(merged_makefile(seq![a]) =~= fragment_header(a) + fragment_content(a) + "\n"@) by {
            assert(merged_makefile(Seq::<Seq<char>>::empty()) == Seq::<char>::empty());
        }
    }
}

/// Two whole one-stack requests in sequence: both stacks' uniquely named
/// fragment files are present afterwards, while the later request's
/// container files and merged build file are the ones that survive.
pub proof fn lemma_sequential_requests(
    m: Map<Seq<char>, Seq<char>>,
    a: Seq<char>,
    b: Seq<char>,
    dir: Seq<char>,
)
    requires
        is_stack(a),
        is_stack(b),
    ensures
        store_after_all(store_after_all(m, seq![a], dir), seq![b], dir).contains_key(
            joined(dir, fragment_file_name(a)),
        ),
        store_after_all(store_after_all(m, seq![a], dir), seq![b], dir)[joined(
            dir,
            fragment_file_name(a),
        )] == fragment_content(a),
        store_after_all(store_after_all(m, seq![a], dir), seq![b], dir).contains_key(
            joined(dir, fragment_file_name(b)),
        ),
        store_after_all(store_after_all(m, seq![a], dir), seq![b], dir)[joined(
            dir,
            fragment_file_name(b),
        )] == fragment_content(b),
        store_after_all(store_after_all(m, seq![a], dir), seq![b], dir)[joined(
            dir,
            "Dockerfile"@,
        )] == dockerfile_content(b),
        store_after_all(store_after_all(m, seq![a], dir), seq![b], dir)[joined(
            dir,
            ".dockerignore"@,
        )] == dockerignore_content(b),
        store_after_all(store_after_all(m, seq![a], dir), seq![b], dir)[joined(
            dir,
            "Makefile"@,
        )] == merged_makefile(seq![b]),
{
    assert(known_ids(seq![a]) =~= seq![a]) by {
        reveal(Seq::filter);
        assert(seq![a].drop_last() =~= Seq::<Seq<char>>::empty());
    }
    assert(known_ids(seq![b]) =~= seq![b]) by {
        reveal(Seq::filter);
        assert(seq![b].drop_last() =~= Seq::<Seq<char>>::empty());
    }
    assert(seq![a].drop_last() =~= Seq::<Seq<char>>::empty());
    assert(seq![b].drop_last() =~= Seq::<Seq<char>>::empty());
    reveal_with_fuel(store_after_stacks, 3);
    assert(store_after_stacks(m, seq![a], dir) == store_after_stack(m, a, dir));
    assert(store_after_all(m, seq![a], dir) == store_after_stack(m, a, dir).insert(
        joined(dir, "Makefile"@),
        merged_makefile(seq![a]),
    ));
    assert(store_after_stacks(store_after_all(m, seq![a], dir), seq![b], dir)
        == store_after_stack(store_after_all(m, seq![a], dir), b, dir));
    assert(store_after_all(store_after_all(m, seq![a], dir), seq![b], dir) == store_after_stack(
        store_after_all(m, seq![a], dir),
        b,
        dir,
    ).insert(joined(dir, "Makefile"@), merged_makefile(seq![b])));
    lemma_file_names_distinct(a);
    lemma_file_names_distinct(b);
    lemma_joined_distinct(dir, "Dockerfile"@, ".dockerignore"@);
    lemma_joined_distinct(dir, "Dockerfile"@, "Makefile"@);
    lemma_joined_distinct(dir, ".dockerignore"@, "Makefile"@);
    lemma_joined_distinct(dir, fragment_file_name(a), "Dockerfile"@);
    lemma_joined_distinct(dir, fragment_file_name(a), ".dockerignore"@);
    lemma_joined_distinct(dir, fragment_file_name(a), "Makefile"@);
    lemma_joined_distinct(dir, fragment_file_name(b), "Dockerfile"@);
    lemma_joined_distinct(dir, fragment_file_name(b), ".dockerignore"@);
    lemma_joined_distinct(dir, fragment_file_name(b), "Makefile"@);
    if a != b {
        assert(fragment_file_name(a) != fragment_file_name(b)) by {
            if fragment_file_name(a) == fragment_file_name(b) {
                lemma_fragment_names_injective(a, b);
            }
        }
        lemma_joined_distinct(dir, fragment_file_name(a), fragment_file_name(b));
    }
}

} // verus!
