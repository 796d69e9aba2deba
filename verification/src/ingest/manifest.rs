//! Which documents an ingest takes in.

use crate::model;
use crate::model::DocType;
use crate::path;
use crate::text;
use vstd::prelude::*;

verus! {

/// A document of the manifest.
#[derive(Debug)]
pub struct DocMeta {
    pub file: String,
    pub game: String,
    pub doc_type: DocType,
}

/// What a [`DocMeta`] holds.
pub struct DocMetaView {
    pub file: Seq<char>,
    pub game: Seq<char>,
    pub doc_type: DocType,
}

impl View for DocMeta {
    type V = DocMetaView;

    open spec fn view(&self) -> DocMetaView {
        DocMetaView { file: self.file@, game: self.game@, doc_type: self.doc_type }
    }
}

impl Clone for DocMeta {
    fn clone(&self) -> (res: Self)
        ensures
            res@ == self@,
    {
        DocMeta { file: self.file.clone(), game: self.game.clone(), doc_type: self.doc_type }
    }
}

/// What each document of a list holds.
pub open spec fn doc_views(list: Seq<DocMeta>) -> Seq<DocMetaView> {
    list.map_values(|d: DocMeta| d@)
}

/// Why a path cannot be taken in.
#[derive(Debug)]
pub enum ResolveError {
    /// Neither the manifest nor the caller names the game.
    NoGame { path: String },
    /// The manifest does not list the file.
    NotListed { path: String },
}

/// What a [`ResolveError`] holds.
pub enum ResolveErrorView {
    NoGame { path: Seq<char> },
    NotListed { path: Seq<char> },
}

impl View for ResolveError {
    type V = ResolveErrorView;

    open spec fn view(&self) -> ResolveErrorView {
        match self {
            ResolveError::NoGame { path } => ResolveErrorView::NoGame { path: path@ },
            ResolveError::NotListed { path } => ResolveErrorView::NotListed { path: path@ },
        }
    }
}

/// The text that describes the error.
pub open spec fn resolve_message(e: ResolveErrorView) -> Seq<char> {
    match e {
        ResolveErrorView::NoGame { path } => path
            + " not found in the manifest and no --game parameter"@,
        ResolveErrorView::NotListed { path } => path + " not found in the manifest"@,
    }
}

impl ResolveError {
    /// The text that describes the error.
    pub fn message(&self) -> (res: String)
        ensures
            res@ == resolve_message(self@),
    {
        match self {
            ResolveError::NoGame { path } => {
                let mut out = path.clone();
                out.append(" not found in the manifest and no --game parameter");
                out
            },
            ResolveError::NotListed { path } => {
                let mut out = path.clone();
                out.append(" not found in the manifest");
                out
            },
        }
    }
}

/// The first document from `from` on whose file is `path`.
pub open spec fn find_file(manifest: Seq<DocMetaView>, path: Seq<char>, from: int) -> Option<DocMetaView>
    decreases manifest.len() - from,
{
    if from < 0 || from >= manifest.len() {
        None
    } else if path::same_components(manifest[from].file, path) {
        Some(manifest[from])
    } else {
        find_file(manifest, path, from + 1)
    }
}

/// The document for one path. The game that the caller names comes before the manifest's.
pub open spec fn resolved(
    manifest: Seq<DocMetaView>,
    path: Seq<char>,
    game: Option<Seq<char>>,
) -> Result<DocMetaView, ResolveErrorView> {
    match find_file(manifest, path, 0) {
        Some(doc) => Ok(
            DocMetaView {
                file: path,
                game: match game {
                    Some(g) => g,
                    None => doc.game,
                },
                doc_type: doc.doc_type,
            },
        ),
        None => if game is None {
            Err(ResolveErrorView::NoGame { path })
        } else {
            Err(ResolveErrorView::NotListed { path })
        },
    }
}

/// The documents for some paths, or the error of the first path that has one.
pub open spec fn all_resolved(
    manifest: Seq<DocMetaView>,
    paths: Seq<Seq<char>>,
    game: Option<Seq<char>>,
) -> Result<Seq<DocMetaView>, ResolveErrorView>
    decreases paths.len(),
{
    if paths.len() == 0 {
        Ok(seq![])
    } else {
        match all_resolved(manifest, paths.drop_last(), game) {
            Ok(before) => match resolved(manifest, paths.last(), game) {
                Ok(doc) => Ok(before.push(doc)),
                Err(e) => Err(e),
            },
            Err(e) => Err(e),
        }
    }
}

/// The documents to take in: those of the manifest, or those for the paths if there are any.
pub open spec fn to_ingest(
    manifest: Seq<DocMetaView>,
    paths: Seq<Seq<char>>,
    game: Option<Seq<char>>,
) -> Result<Seq<DocMetaView>, ResolveErrorView> {
    if paths.len() == 0 {
        Ok(manifest)
    } else {
        all_resolved(manifest, paths, game)
    }
}

/// The document for one path.
pub fn resolve_document(manifest: &Vec<DocMeta>, path: &String, game: &Option<String>) -> (res: Result<
    DocMeta,
    ResolveError,
>)
    ensures
        resolved(doc_views(manifest@), path@, model::option_text(*game)) == (match res {
            Ok(doc) => Ok(doc@),
            Err(e) => Err(e@),
        }),
{
    let mut i: usize = 0;
    while i < manifest.len()
        invariant
            i <= manifest@.len(),
            find_file(doc_views(manifest@), path@, i as int) == find_file(
                doc_views(manifest@),
                path@,
                0,
            ),
        decreases manifest@.len() - i,
    {
        assert(doc_views(manifest@)[i as int] == manifest@[i as int]@);
        if path::same_path(manifest[i].file.as_str(), path.as_str()) {
            let named = match game {
                Some(g) => g.clone(),
                None => manifest[i].game.clone(),
            };
            return Ok(
                DocMeta { file: path.clone(), game: named, doc_type: manifest[i].doc_type },
            );
        }
        i = i + 1;
    }
    if game.is_none() {
        Err(ResolveError::NoGame { path: path.clone() })
    } else {
        Err(ResolveError::NotListed { path: path.clone() })
    }
}

/// An error on an earlier path is the error of the whole.
proof fn lemma_error_persists(
    manifest: Seq<DocMetaView>,
    paths: Seq<Seq<char>>,
    game: Option<Seq<char>>,
    n: int,
)
    requires
        0 <= n <= paths.len(),
        all_resolved(manifest, paths.take(n), game) is Err,
    ensures
        all_resolved(manifest, paths, game) == all_resolved(manifest, paths.take(n), game),
    decreases paths.len() - n,
{
    if n == paths.len() {
        assert(paths.take(n) == paths);
    } else {
        assert(paths.take(n + 1).drop_last() == paths.take(n));
        lemma_error_persists(manifest, paths, game, n + 1);
    }
}

/// The documents to take in: those of the manifest, or those for the paths if there are any.
pub fn resolve_documents(
    manifest: &Vec<DocMeta>,
    paths: &Vec<String>,
    game: &Option<String>,
) -> (res: Result<Vec<DocMeta>, ResolveError>)
    ensures
        to_ingest(doc_views(manifest@), text::texts(paths@), model::option_text(*game)) == (match res {
            Ok(list) => Ok(doc_views(list@)),
            Err(e) => Err(e@),
        }),
{
    let ghost docs = doc_views(manifest@);
    let ghost all = text::texts(paths@);
    let ghost named = model::option_text(*game);
    let mut out: Vec<DocMeta> = Vec::new();
    if paths.len() == 0 {
        let mut k: usize = 0;
        assert(doc_views(out@) == docs.take(0));
        while k < manifest.len()
            invariant
                docs == doc_views(manifest@),
                k <= manifest@.len(),
                doc_views(out@) == docs.take(k as int),
            decreases manifest@.len() - k,
        {
            let doc = manifest[k].clone();
            let ghost before = doc_views(out@);
            out.push(doc);
            assert(doc_views(out@) == before.push(doc@));
            assert(docs.take(k + 1) == docs.take(k as int).push(docs[k as int]));
            k = k + 1;
        }
        assert(docs.take(k as int) == docs);
        return Ok(out);
    }
    let mut i: usize = 0;
    assert(all.take(0).len() == 0);
    assert(doc_views(out@) == Seq::<DocMetaView>::empty());
    while i < paths.len()
        invariant
            docs == doc_views(manifest@),
            all == text::texts(paths@),
            named == model::option_text(*game),
            paths@.len() > 0,
            i <= paths@.len(),
            all_resolved(docs, all.take(i as int), named) == Ok::<_, ResolveErrorView>(
                doc_views(out@),
            ),
        decreases paths@.len() - i,
    {
        proof {
            assert(all.take(i + 1).drop_last() == all.take(i as int));
            assert(all.take(i + 1).last() == paths@[i as int]@);
        }
        match resolve_document(manifest, &paths[i], game) {
            Ok(doc) => {
                let ghost before = doc_views(out@);
                out.push(doc);
                assert(doc_views(out@) == before.push(doc@));
            },
            Err(e) => {
                proof {
                    lemma_error_persists(docs, all, named, i + 1);
                }
                return Err(e);
            },
        }
        i = i + 1;
    }
    assert(all.take(i as int) == all);
    Ok(out)
}

/// Whether document `i` is the first of the manifest whose file is `path`.
pub open spec fn first_listed(manifest: Seq<DocMetaView>, path: Seq<char>, i: int) -> bool {
    &&& 0 <= i < manifest.len()
    &&& path::same_components(manifest[i].file, path)
    &&& forall|j: int|
        0 <= j < i ==> !path::same_components((#[trigger] manifest[j]).file, path)
}

/// Whether no document of the manifest has the file `path`.
pub open spec fn unlisted(manifest: Seq<DocMetaView>, path: Seq<char>) -> bool {
    forall|i: int|
        0 <= i < manifest.len() ==> !path::same_components((#[trigger] manifest[i]).file, path)
}

proof fn lemma_find_file(manifest: Seq<DocMetaView>, path: Seq<char>, from: int)
    requires
        0 <= from,
        forall|j: int|
            0 <= j < from && j < manifest.len() ==> !path::same_components(
                (#[trigger] manifest[j]).file,
                path,
            ),
    ensures
        match find_file(manifest, path, from) {
            Some(doc) => exists|i: int| #[trigger]
                first_listed(manifest, path, i) && manifest[i] == doc,
            None => unlisted(manifest, path),
        },
    decreases manifest.len() - from,
{
    if from < manifest.len() {
        if path::same_components(manifest[from].file, path) {
            assert(first_listed(manifest, path, from));
        } else {
            lemma_find_file(manifest, path, from + 1);
        }
    }
}

/// A path is taken in as the first document of the manifest with that file: under the path as it was
/// given, with that document's kind, and with the game that was named or else the document's. A path
/// that the manifest does not list is an error, whether or not a game was named.
pub proof fn law_resolved(manifest: Seq<DocMetaView>, path: Seq<char>, game: Option<Seq<char>>)
    ensures
        match resolved(manifest, path, game) {
            Ok(doc) => exists|i: int|
                {
                    &&& #[trigger] first_listed(manifest, path, i)
                    &&& doc.file == path
                    &&& doc.doc_type == manifest[i].doc_type
                    &&& game is Some ==> doc.game == game.unwrap()
                    &&& game is None ==> doc.game == manifest[i].game
                },
            Err(e) => {
                &&& unlisted(manifest, path)
                &&& game is None ==> e == (ResolveErrorView::NoGame { path })
                &&& game is Some ==> e == (ResolveErrorView::NotListed { path })
            },
        },
{
    lemma_find_file(manifest, path, 0);
}

proof fn lemma_all_resolved(
    manifest: Seq<DocMetaView>,
    paths: Seq<Seq<char>>,
    game: Option<Seq<char>>,
)
    ensures
        match all_resolved(manifest, paths, game) {
            Ok(docs) => {
                &&& docs.len() == paths.len()
                &&& forall|k: int|
                    0 <= k < paths.len() ==> resolved(manifest, #[trigger] paths[k], game) == Ok::<
                        _,
                        ResolveErrorView,
                    >(docs[k])
            },
            Err(e) => exists|k: int|
                {
                    &&& 0 <= k < paths.len()
                    &&& resolved(manifest, #[trigger] paths[k], game) == Err::<DocMetaView, _>(e)
                    &&& all_fine(manifest, paths.take(k), game)
                },
        },
    decreases paths.len(),
{
    if paths.len() > 0 {
        let before = paths.drop_last();
        let n = paths.len() - 1;
        lemma_all_resolved(manifest, before, game);
        assert(paths.take(n) == before);
        match all_resolved(manifest, before, game) {
            Ok(docs) => {
                assert forall|k: int| 0 <= k < before.len() implies resolved(
                    manifest,
                    #[trigger] before[k],
                    game,
                ) is Ok by {}
                assert(paths[n] == paths.last());
                assert(all_fine(manifest, paths.take(n), game));
                match all_resolved(manifest, paths, game) {
                    Ok(all) => {
                        assert forall|k: int| 0 <= k < paths.len() implies resolved(
                            manifest,
                            #[trigger] paths[k],
                            game,
                        ) == Ok::<_, ResolveErrorView>(all[k]) by {
                            if k < n {
                                assert(before[k] == paths[k]);
                            }
                        }
                    },
                    Err(e) => {},
                }
            },
            Err(e) => {
                let k = choose|k: int|
                    {
                        &&& 0 <= k < before.len()
                        &&& resolved(manifest, #[trigger] before[k], game) == Err::<DocMetaView, _>(e)
                        &&& all_fine(manifest, before.take(k), game)
                    };
                assert(paths[k] == before[k]);
                assert(paths.take(k) == before.take(k));
            },
        }
    }
}

/// Whether every path is taken in.
pub open spec fn all_fine(
    manifest: Seq<DocMetaView>,
    paths: Seq<Seq<char>>,
    game: Option<Seq<char>>,
) -> bool {
    forall|k: int| 0 <= k < paths.len() ==> resolved(manifest, #[trigger] paths[k], game) is Ok
}

/// Without paths the whole manifest is taken in. With paths it is one document for each, in order, or
/// the error of the first path that is an error.
pub proof fn law_to_ingest(
    manifest: Seq<DocMetaView>,
    paths: Seq<Seq<char>>,
    game: Option<Seq<char>>,
)
    ensures
        paths.len() == 0 ==> to_ingest(manifest, paths, game) == Ok::<_, ResolveErrorView>(manifest),
        paths.len() > 0 ==> match to_ingest(manifest, paths, game) {
            Ok(docs) => {
                &&& docs.len() == paths.len()
                &&& forall|k: int|
                    0 <= k < paths.len() ==> resolved(manifest, #[trigger] paths[k], game) == Ok::<
                        _,
                        ResolveErrorView,
                    >(docs[k])
            },
            Err(e) => exists|k: int|
                {
                    &&& 0 <= k < paths.len()
                    &&& resolved(manifest, #[trigger] paths[k], game) == Err::<DocMetaView, _>(e)
                    &&& all_fine(manifest, paths.take(k), game)
                },
        },
{
    lemma_all_resolved(manifest, paths, game);
}

/// The message names the path, and the missing game only where none was named.
pub proof fn law_resolve_message(path: Seq<char>)
    ensures
        resolve_message(ResolveErrorView::NoGame { path }) == path
            + " not found in the manifest and no --game parameter"@,
        resolve_message(ResolveErrorView::NotListed { path }) == path
            + " not found in the manifest"@,
{
}

} // verus!
