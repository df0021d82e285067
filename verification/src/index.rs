//! A persistent text-search directory of company identity records, kept
//! in a tantivy index with a fixed three-field schema: a registry id, a
//! tokenized name field, and an exact-match ticker field.
//!
//! The index, the writer's uncommitted buffer, and the reader's snapshot
//! are modeled as multisets of plain records. The model assumes the
//! single-writer discipline the design prescribes: all mutation of one
//! on-disk index goes through one `CikIndex` value and its writer
//! sessions.
use vstd::prelude::*;
use vstd::multiset::Multiset;

verus! {

#[verifier::external_type_specification]
#[verifier::external_body]
pub struct ExTantivyIndex(tantivy::Index);

#[verifier::external_type_specification]
#[verifier::external_body]
pub struct ExIndexWriter(tantivy::IndexWriter);

#[verifier::external_type_specification]
#[verifier::external_body]
pub struct ExIndexReader(tantivy::IndexReader);

#[verifier::external_type_specification]
#[verifier::external_body]
pub struct ExDocument(tantivy::Document);

#[verifier::external_type_specification]
#[verifier::external_body]
pub struct ExField(tantivy::schema::Field);

#[verifier::external_type_specification]
#[verifier::external_body]
pub struct ExSchema(tantivy::schema::Schema);

#[verifier::external_type_specification]
#[verifier::external_body]
pub struct ExQueryParser(tantivy::query::QueryParser);

#[verifier::external_type_specification]
#[verifier::external_body]
pub struct ExMmapDirectory(tantivy::directory::MmapDirectory);

/// The model of one stored record: registry id, tickers, names.
pub type RecModel = (u64, Seq<Seq<char>>, Seq<Seq<char>>);

/// The integer values a document holds under a field, in insertion order.
pub uninterp spec fn doc_u64s(d: tantivy::Document, f: tantivy::schema::Field) -> Seq<u64>;

/// The text values a document holds under a field, in insertion order.
pub uninterp spec fn doc_texts(d: tantivy::Document, f: tantivy::schema::Field) -> Seq<Seq<char>>;

/// The records buffered in a writer session and not yet committed, read
/// under the given (id, ticker, name) fields.
pub uninterp spec fn writer_buf(
    w: tantivy::IndexWriter,
    cf: tantivy::schema::Field,
    tf: tantivy::schema::Field,
    nf: tantivy::schema::Field,
) -> Multiset<RecModel>;

/// The records durably committed to an index, read under the given
/// (id, ticker, name) fields.
pub uninterp spec fn committed_docs(
    i: tantivy::Index,
    cf: tantivy::schema::Field,
    tf: tantivy::schema::Field,
    nf: tantivy::schema::Field,
) -> Multiset<RecModel>;

/// The records a reader's current snapshot serves, read under the given
/// (id, ticker, name) fields.
pub uninterp spec fn snapshot_docs(
    r: tantivy::IndexReader,
    cf: tantivy::schema::Field,
    tf: tantivy::schema::Field,
    nf: tantivy::schema::Field,
) -> Multiset<RecModel>;

/// The hit list a query yields against a reader's current snapshot,
/// read under the given (id, ticker, name) fields: `None` when the query
/// does not parse, otherwise the retrieved records, best-scoring first,
/// ties in the snapshot's stable internal order. Scores, matching and
/// ranking are tantivy's; the same reader state, query and limit give
/// the same list.
pub uninterp spec fn query_hits(
    r: tantivy::IndexReader,
    cf: tantivy::schema::Field,
    tf: tantivy::schema::Field,
    nf: tantivy::schema::Field,
    q: Seq<char>,
    limit: int,
) -> Option<Seq<RecModel>>;

/// How many documents of a reader's current snapshot match a query,
/// under tantivy's matching of the parsed query.
pub uninterp spec fn query_match_count(
    r: tantivy::IndexReader,
    cf: tantivy::schema::Field,
    tf: tantivy::schema::Field,
    nf: tantivy::schema::Field,
    q: Seq<char>,
) -> int;

/// The schema an index was opened or created with; `open_or_create`
/// refuses an existing index whose stored schema differs from the given
/// one, so on success the two agree.
pub uninterp spec fn index_schema(i: tantivy::Index) -> tantivy::schema::Schema;

/// The field `f` is schema `s`'s registry-id field: an unsigned 64-bit
/// field named "cik", indexed for exact-value lookup and stored.
pub uninterp spec fn cik_field_of(s: tantivy::schema::Schema, f: tantivy::schema::Field) -> bool;

/// The field `f` is schema `s`'s name field: free text named "names",
/// tokenized for relevance search and stored.
pub uninterp spec fn names_field_of(s: tantivy::schema::Schema, f: tantivy::schema::Field) -> bool;

/// The field `f` is schema `s`'s ticker field: an exact-match,
/// untokenized string named "tickers", stored.
pub uninterp spec fn tickers_field_of(
    s: tantivy::schema::Schema,
    f: tantivy::schema::Field,
) -> bool;

/// The writer is a write session of the on-disk index that `i` refers
/// to: `Index::writer` creates sessions of its own index only, and no
/// operation re-homes one.
pub uninterp spec fn writer_for(w: tantivy::IndexWriter, i: tantivy::Index) -> bool;

/// The memory budget, in bytes, that a writer session was created with
/// for uncommitted documents.
pub uninterp spec fn writer_budget(w: tantivy::IndexWriter) -> int;

/// The smaller of two integers.
pub open spec fn min_int(a: int, b: int) -> int {
    if a < b {
        a
    } else {
        b
    }
}

/// The record a stored document denotes under the given fields: its
/// first integer id value (zero if none), its ticker texts, and its
/// name texts.
pub open spec fn doc_record(
    d: tantivy::Document,
    cf: tantivy::schema::Field,
    tf: tantivy::schema::Field,
    nf: tantivy::schema::Field,
) -> RecModel {
    (
        if doc_u64s(d, cf).len() > 0 {
            doc_u64s(d, cf)[0]
        } else {
            0
        },
        doc_texts(d, tf),
        doc_texts(d, nf),
    )
}

/// One company identity record of a search result.
#[derive(Debug, Clone)]
pub struct CompanyRecord {
    pub cik: u64,
    pub tickers: Vec<String>,
    pub names: Vec<String>,
}

impl View for CompanyRecord {
    type V = RecModel;

    open spec fn view(&self) -> RecModel {
        (self.cik, self.tickers.deep_view(), self.names.deep_view())
    }
}

/// Failure of an index operation.
#[derive(Debug, Clone, Copy, PartialEq, Eq)]
pub enum IndexError {
    /// The index location could not be opened, written or read.
    Storage,
    /// The search query could not be parsed.
    MalformedQuery,
}

/// Relies on tantivy's `SchemaBuilder`: `add_u64_field` and
/// `add_text_field` register fields under fresh ids, so the three
/// returned fields are pairwise distinct. The id field is indexed and
/// stored; the name field is tokenized text, stored; the ticker field is
/// an exact-match string, stored.
#[verifier::external_body]
fn schema_parts() -> (r: (
    tantivy::schema::Schema,
    tantivy::schema::Field,
    tantivy::schema::Field,
    tantivy::schema::Field,
))
    ensures
        r.1 != r.2,
        r.1 != r.3,
        r.2 != r.3,
        cik_field_of(r.0, r.1),
        tickers_field_of(r.0, r.2),
        names_field_of(r.0, r.3),
{
    let mut b = tantivy::schema::Schema::builder();
    let cik = b.add_u64_field("cik", tantivy::schema::INDEXED | tantivy::schema::STORED);
    let names = b.add_text_field("names", tantivy::schema::TEXT | tantivy::schema::STORED);
    let tickers = b.add_text_field("tickers", tantivy::schema::STRING | tantivy::schema::STORED);
    (b.build(), cik, tickers, names)
}

/// Relies on `MmapDirectory::open`: opens the directory at `path`,
/// failing with the storage error if it does not exist or cannot be
/// accessed.
#[verifier::external_body]
fn open_dir(path: &str) -> (r: Result<tantivy::directory::MmapDirectory, IndexError>)
    ensures
        r matches Err(e) ==> e == IndexError::Storage,
{
    tantivy::directory::MmapDirectory::open(std::path::Path::new(path)).map_err(
        |_| IndexError::Storage,
    )
}

/// Relies on `Index::open_or_create`: opens the index stored in the
/// directory, or creates an empty one with the given schema; an existing
/// index whose stored schema differs is refused, so on success the
/// index's schema is the given one. Any failure is the storage error.
#[verifier::external_body]
fn open_index(dir: tantivy::directory::MmapDirectory, schema: tantivy::schema::Schema) -> (r:
    Result<tantivy::Index, IndexError>)
    ensures
        r matches Ok(ix) ==> index_schema(ix) == schema,
        r matches Err(e) ==> e == IndexError::Storage,
{
    tantivy::Index::open_or_create(dir, schema).map_err(|_| IndexError::Storage)
}

/// Relies on `Index::reader_builder` with the manual reload policy: the
/// returned reader serves what is committed at creation time and changes
/// its view only on an explicit reload.
#[verifier::external_body]
fn make_reader(index: &tantivy::Index) -> (r: Result<tantivy::IndexReader, IndexError>)
    ensures
        r matches Ok(rd) ==> forall|
            cf: tantivy::schema::Field,
            tf: tantivy::schema::Field,
            nf: tantivy::schema::Field,
        |
            #[trigger] snapshot_docs(rd, cf, tf, nf) == committed_docs(*index, cf, tf, nf),
        r matches Ok(rd) ==> forall|
            cf: tantivy::schema::Field,
            tf: tantivy::schema::Field,
            nf: tantivy::schema::Field,
            q: Seq<char>,
        |
            #[trigger] query_match_count(rd, cf, tf, nf, q) >= 0,
        r matches Err(e) ==> e == IndexError::Storage,
{
    index.reader_builder().reload_policy(tantivy::ReloadPolicy::Manual).try_into().map_err(
        |_| IndexError::Storage,
    )
}

/// Relies on `QueryParser::for_index`: a parser whose default fields are
/// the two given ones.
#[verifier::external_body]
fn make_parser(
    index: &tantivy::Index,
    f1: tantivy::schema::Field,
    f2: tantivy::schema::Field,
) -> tantivy::query::QueryParser {
    tantivy::query::QueryParser::for_index(index, vec![f1, f2])
}

/// Relies on `Document::default`: a new document holds no field values.
#[verifier::external_body]
fn doc_new() -> (d: tantivy::Document)
    ensures
        forall|f: tantivy::schema::Field| #[trigger] doc_u64s(d, f) == Seq::<u64>::empty(),
        forall|f: tantivy::schema::Field| #[trigger] doc_texts(d, f) == Seq::<Seq<char>>::empty(),
{
    tantivy::Document::default()
}

/// Relies on `Document::add_u64`: appends one integer value under `f`
/// and touches no other field value.
#[verifier::external_body]
fn doc_add_u64(d: &mut tantivy::Document, f: tantivy::schema::Field, v: u64)
    ensures
        doc_u64s(*final(d), f) == doc_u64s(*old(d), f).push(v),
        forall|g: tantivy::schema::Field|
            g != f ==> #[trigger] doc_u64s(*final(d), g) == doc_u64s(*old(d), g),
        forall|g: tantivy::schema::Field| #[trigger]
            doc_texts(*final(d), g) == doc_texts(*old(d), g),
{
    d.add_u64(f, v);
}

/// Relies on `Document::add_text`: appends one text value under `f` and
/// touches no other field value.
#[verifier::external_body]
fn doc_add_text(d: &mut tantivy::Document, f: tantivy::schema::Field, t: &str)
    ensures
        doc_texts(*final(d), f) == doc_texts(*old(d), f).push(t@),
        forall|g: tantivy::schema::Field|
            g != f ==> #[trigger] doc_texts(*final(d), g) == doc_texts(*old(d), g),
        forall|g: tantivy::schema::Field| #[trigger]
            doc_u64s(*final(d), g) == doc_u64s(*old(d), g),
{
    d.add_text(f, t);
}

/// Relies on `IndexWriter::add_document`: stages the document in the
/// writer's buffer; it becomes visible only at a later commit. A failed
/// send to the indexing pipeline stages nothing.
#[verifier::external_body]
fn add_doc(w: &mut tantivy::IndexWriter, d: tantivy::Document) -> (r: Result<(), IndexError>)
    ensures
        r is Ok ==> forall|
            cf: tantivy::schema::Field,
            tf: tantivy::schema::Field,
            nf: tantivy::schema::Field,
        |
            #[trigger] writer_buf(*final(w), cf, tf, nf) == writer_buf(*old(w), cf, tf, nf).insert(
                doc_record(d, cf, tf, nf),
            ),
        r is Err ==> forall|
            cf: tantivy::schema::Field,
            tf: tantivy::schema::Field,
            nf: tantivy::schema::Field,
        |
            #[trigger] writer_buf(*final(w), cf, tf, nf) == writer_buf(*old(w), cf, tf, nf),
        forall|i: tantivy::Index| #[trigger] writer_for(*final(w), i) == writer_for(*old(w), i),
{
    w.add_document(d).map(|_| ()).map_err(|_| IndexError::Storage)
}

/// Relies on `Document::get_all` and `Value::as_u64`: the first integer
/// value under `f`, or zero if there is none.
#[verifier::external_body]
fn doc_first_u64(d: &tantivy::Document, f: tantivy::schema::Field) -> (r: u64)
    ensures
        r == (if doc_u64s(*d, f).len() > 0 {
            doc_u64s(*d, f)[0]
        } else {
            0
        }),
{
    d.get_all(f).find_map(|v| v.as_u64()).unwrap_or(0)
}

/// Relies on `Document::get_all` and `Value::as_text`: the text values
/// under `f`, in order.
#[verifier::external_body]
fn doc_text_values(d: &tantivy::Document, f: tantivy::schema::Field) -> (r: Vec<String>)
    ensures
        r.deep_view() == doc_texts(*d, f),
{
    d.get_all(f).filter_map(|v| v.as_text()).map(String::from).collect()
}

/// A company directory backed by one on-disk tantivy index.
pub struct CikIndex {
    index: tantivy::Index,
    cik_field: tantivy::schema::Field,
    ticker_field: tantivy::schema::Field,
    name_field: tantivy::schema::Field,
    reader: tantivy::IndexReader,
    parser: tantivy::query::QueryParser,
}

impl CikIndex {
    /// The handle is well formed: the three schema fields are pairwise
    /// distinct and play their fixed roles in the index's schema — the
    /// indexed, stored "cik" integer, the tokenized, stored "names"
    /// text, the exact-match, stored "tickers" string — and match
    /// counts against the reader are counts.
    pub closed spec fn wf(self) -> bool {
        &&& self.cik_field != self.ticker_field
        &&& self.cik_field != self.name_field
        &&& self.ticker_field != self.name_field
        &&& cik_field_of(index_schema(self.index), self.cik_field)
        &&& tickers_field_of(index_schema(self.index), self.ticker_field)
        &&& names_field_of(index_schema(self.index), self.name_field)
        &&& forall|q: Seq<char>|
            #[trigger] query_match_count(
                self.reader,
                self.cik_field,
                self.ticker_field,
                self.name_field,
                q,
            ) >= 0
    }

    /// The writer is a session of this handle's index.
    pub closed spec fn owns_writer(self, w: tantivy::IndexWriter) -> bool {
        writer_for(w, self.index)
    }

    /// The records committed to the on-disk index.
    pub closed spec fn committed(self) -> Multiset<RecModel> {
        committed_docs(self.index, self.cik_field, self.ticker_field, self.name_field)
    }

    /// The records the reader's current snapshot serves.
    pub closed spec fn snapshot(self) -> Multiset<RecModel> {
        snapshot_docs(self.reader, self.cik_field, self.ticker_field, self.name_field)
    }

    /// The records buffered in a writer session of this index.
    pub closed spec fn buffered(self, w: tantivy::IndexWriter) -> Multiset<RecModel> {
        writer_buf(w, self.cik_field, self.ticker_field, self.name_field)
    }

    /// The record a stored document denotes under this index's schema.
    pub closed spec fn rec_of(self, d: tantivy::Document) -> RecModel {
        doc_record(d, self.cik_field, self.ticker_field, self.name_field)
    }

    /// The hit list a query yields against the reader's current
    /// snapshot, or `None` when the query does not parse.
    pub closed spec fn hits(self, q: Seq<char>, limit: int) -> Option<Seq<RecModel>> {
        query_hits(self.reader, self.cik_field, self.ticker_field, self.name_field, q, limit)
    }

    /// How many snapshot documents match the query.
    pub closed spec fn match_count(self, q: Seq<char>) -> int {
        query_match_count(self.reader, self.cik_field, self.ticker_field, self.name_field, q)
    }

    /// Opens the index directory at `path`, or creates an empty index
    /// with the fixed schema if the directory holds none. The fresh
    /// reader starts at the committed contents. The contracts of this
    /// type read the on-disk state through this one handle: a second
    /// handle on the same directory, here or in another process, is
    /// outside the model.
    pub fn at_location(path: &str) -> (r: Result<CikIndex, IndexError>)
        ensures
            r matches Ok(ix) ==> ix.wf() && ix.snapshot() == ix.committed(),
            r matches Err(e) ==> e == IndexError::Storage,
    {
        let parts = schema_parts();
        let (schema, cik_field, ticker_field, name_field) = parts;
        let dir = open_dir(path)?;
        let index = open_index(dir, schema)?;
        let reader = make_reader(&index)?;
        let parser = make_parser(&index, ticker_field, name_field);
        Ok(CikIndex { index, cik_field, ticker_field, name_field, reader, parser })
    }

    /// Relies on `Index::writer`: an exclusive writer session of this
    /// index with an empty document buffer and a 512_000_000-byte memory
    /// budget for uncommitted documents; fails with the storage error
    /// when the session cannot be acquired, for instance while another
    /// writer holds the index lock.
    #[verifier::external_body]
    pub fn create_writer(&self) -> (r: Result<tantivy::IndexWriter, IndexError>)
        ensures
            r matches Ok(w) ==> self.owns_writer(w) && writer_budget(w) == 512_000_000
                && self.buffered(w) == Multiset::<RecModel>::empty(),
            r matches Err(e) ==> e == IndexError::Storage,
    {
        self.index.writer(512_000_000).map_err(|_| IndexError::Storage)
    }

    /// Appends one new document carrying `cik`, one ticker entry per
    /// ticker and one name entry per name to the writer's buffer. This is
    /// append-only: no existing document with the same id is looked up or
    /// removed.
    pub fn insert(
        &self,
        writer: &mut tantivy::IndexWriter,
        cik: u64,
        tickers: &Vec<String>,
        names: &Vec<String>,
    ) -> (r: Result<(), IndexError>)
        requires
            self.wf(),
            self.owns_writer(*old(writer)),
        ensures
            r is Ok ==> self.buffered(*final(writer)) == self.buffered(*old(writer)).insert(
                (cik, tickers.deep_view(), names.deep_view()),
            ),
            r is Err ==> self.buffered(*final(writer)) == self.buffered(*old(writer)),
            self.owns_writer(*final(writer)),
    {
        let mut doc = doc_new();
        doc_add_u64(&mut doc, self.cik_field, cik);
        let mut i: usize = 0;
        while i < tickers.len()
            invariant
                i <= tickers@.len(),
                self.wf(),
                doc_u64s(doc, self.cik_field) == seq![cik],
                doc_texts(doc, self.ticker_field) == tickers.deep_view().take(i as int),
                doc_texts(doc, self.name_field) == Seq::<Seq<char>>::empty(),
            decreases tickers@.len() - i,
        {
            doc_add_text(&mut doc, self.ticker_field, tickers[i].as_str());
            proof {
                assert(tickers.deep_view().take(i + 1) =~= tickers.deep_view().take(i as int).push(
                    tickers@[i as int]@,
                ));
            }
            i = i + 1;
        }
        let mut j: usize = 0;
        while j < names.len()
            invariant
                j <= names@.len(),
                self.wf(),
                doc_u64s(doc, self.cik_field) == seq![cik],
                doc_texts(doc, self.ticker_field) == tickers.deep_view().take(tickers@.len() as int),
                doc_texts(doc, self.name_field) == names.deep_view().take(j as int),
            decreases names@.len() - j,
        {
            doc_add_text(&mut doc, self.name_field, names[j].as_str());
            proof {
                assert(names.deep_view().take(j + 1) =~= names.deep_view().take(j as int).push(
                    names@[j as int]@,
                ));
            }
            j = j + 1;
        }
        proof {
            assert(tickers.deep_view().take(tickers@.len() as int) =~= tickers.deep_view());
            assert(names.deep_view().take(names@.len() as int) =~= names.deep_view());
            assert(doc_record(doc, self.cik_field, self.ticker_field, self.name_field) == (
                cik,
                tickers.deep_view(),
                names.deep_view(),
            ));
        }
        add_doc(writer, doc)
    }

    /// Relies on `IndexWriter::commit`: the documents buffered in this
    /// index's own writer session become durable and join the committed
    /// contents, and the buffer empties; any failure is the storage
    /// error. A snapshot already held by the reader is unaffected.
    #[verifier::external_body]
    pub fn commit(&mut self, writer: &mut tantivy::IndexWriter) -> (r: Result<(), IndexError>)
        requires
            old(self).owns_writer(*old(writer)),
        ensures
            final(self).wf() == old(self).wf(),
            final(self).snapshot() == old(self).snapshot(),
            forall|w: tantivy::IndexWriter| #[trigger]
                final(self).buffered(w) == old(self).buffered(w),
            forall|w: tantivy::IndexWriter| #[trigger]
                final(self).owns_writer(w) == old(self).owns_writer(w),
            final(self).owns_writer(*final(writer)),
            r is Ok ==> final(self).committed() == old(self).committed().add(
                old(self).buffered(*old(writer)),
            ),
            r is Ok ==> final(self).buffered(*final(writer)) == Multiset::<RecModel>::empty(),
            r matches Err(e) ==> e == IndexError::Storage,
    {
        writer.commit().map(|_| ()).map_err(|_| IndexError::Storage)
    }

    /// Relies on `IndexReader::reload`: after a refresh the reader's
    /// snapshot is exactly the committed contents; any failure is the
    /// storage error.
    #[verifier::external_body]
    pub fn refresh(&mut self) -> (r: Result<(), IndexError>)
        ensures
            final(self).wf() == old(self).wf(),
            final(self).committed() == old(self).committed(),
            forall|w: tantivy::IndexWriter| #[trigger]
                final(self).buffered(w) == old(self).buffered(w),
            forall|w: tantivy::IndexWriter| #[trigger]
                final(self).owns_writer(w) == old(self).owns_writer(w),
            r is Ok ==> final(self).snapshot() == final(self).committed(),
            r matches Err(e) ==> e == IndexError::Storage,
    {
        self.reader.reload().map_err(|_| IndexError::Storage)
    }

    /// Relies on `IndexReader::searcher`, `QueryParser::parse_query`,
    /// `Searcher::search` with a `TopDocs` collector, and
    /// `Searcher::doc`: parses the query, collects at most `limit` hits
    /// of the reader's snapshot in non-increasing score order, and
    /// retrieves each hit's stored document. The calls share one
    /// searcher, whose hit addresses are only valid against itself, so
    /// the retrieval stays in this one wrapper. The retrieved list is
    /// named `query_hits`; its length is the match count capped at
    /// `limit`, since the collector keeps every matching document up to
    /// that bound; a parse failure, and only that, is the malformed
    /// query error, named by `query_hits` being `None`.
    #[verifier::external_body]
    fn query_docs(&self, query: &str, limit: usize) -> (r: Result<
        Vec<tantivy::Document>,
        IndexError,
    >)
        requires
            limit >= 1,
        ensures
            r matches Ok(docs) ==> docs@.len() <= limit,
            r matches Ok(docs) ==> forall|
                j: int,
                cf: tantivy::schema::Field,
                tf: tantivy::schema::Field,
                nf: tantivy::schema::Field,
            |
                0 <= j < docs@.len() ==> snapshot_docs(self.reader, cf, tf, nf).contains(
                    #[trigger] doc_record(docs@[j], cf, tf, nf),
                ),
            r matches Ok(docs) ==> forall|
                cf: tantivy::schema::Field,
                tf: tantivy::schema::Field,
                nf: tantivy::schema::Field,
            |
                (#[trigger] query_hits(self.reader, cf, tf, nf, query@, limit as int))
                    matches Some(h) && docs@.map_values(
                    |d: tantivy::Document| doc_record(d, cf, tf, nf),
                ) == h,
            r matches Ok(docs) ==> forall|
                cf: tantivy::schema::Field,
                tf: tantivy::schema::Field,
                nf: tantivy::schema::Field,
            |
                docs@.len() == min_int(
                    limit as int,
                    #[trigger] query_match_count(self.reader, cf, tf, nf, query@),
                ),
            r matches Err(e) ==> forall|
                cf: tantivy::schema::Field,
                tf: tantivy::schema::Field,
                nf: tantivy::schema::Field,
            |
                (e == IndexError::MalformedQuery) <==> (#[trigger] query_hits(
                    self.reader,
                    cf,
                    tf,
                    nf,
                    query@,
                    limit as int,
                )) is None,
    {
        let searcher = self.reader.searcher();
        let q = self.parser.parse_query(query).map_err(|_| IndexError::MalformedQuery)?;
        let top = searcher.search(
            &q,
            &tantivy::collector::TopDocs::with_limit(limit),
        ).map_err(|_| IndexError::Storage)?;
        let mut docs = Vec::with_capacity(top.len());
        for (_score, addr) in top {
            docs.push(searcher.doc(addr).map_err(|_| IndexError::Storage)?);
        }
        Ok(docs)
    }

    /// Reads one retrieved document back as a plain record: its first
    /// integer id value (zero if none), its ticker texts, and its name
    /// texts.
    pub fn extract_record(&self, d: &tantivy::Document) -> (r: CompanyRecord)
        ensures
            r@ == self.rec_of(*d),
    {
        let cik = doc_first_u64(d, self.cik_field);
        let tickers = doc_text_values(d, self.ticker_field);
        let names = doc_text_values(d, self.name_field);
        CompanyRecord { cik, tickers, names }
    }

    /// Runs `query` against the reader's current snapshot: the hit list
    /// of the query, best-scoring first, one record per retrieved hit —
    /// at most `limit` of them, and as many as the snapshot has matches
    /// below that. A query that cannot be parsed is reported as a value,
    /// not a crash.
    pub fn search(&self, query: &str, limit: usize) -> (r: Result<Vec<CompanyRecord>, IndexError>)
        requires
            self.wf(),
        ensures
            r matches Ok(v) ==> v@.len() <= limit,
            r matches Ok(v) ==> v@.len() == min_int(limit as int, self.match_count(query@)),
            r matches Ok(v) ==> forall|j: int|
                0 <= j < v@.len() ==> self.snapshot().contains((#[trigger] v@[j])@),
            limit == 0 ==> (r matches Ok(v) && v@.len() == 0),
            limit >= 1 ==> (r matches Ok(v) ==> (self.hits(query@, limit as int) matches Some(h)
                && v@.map_values(|x: CompanyRecord| x@) == h)),
            limit >= 1 ==> (r matches Err(e) ==> ((e == IndexError::MalformedQuery) <==> self.hits(
                query@,
                limit as int,
            ) is None)),
    {
        if limit == 0 {
            proof {
                assert(self.match_count(query@) >= 0);
            }
            return Ok(Vec::new());
        }
        let docs = match self.query_docs(query, limit) {
            Ok(d) => d,
            Err(e) => {
                proof {
                    assert((e == IndexError::MalformedQuery) <==> query_hits(
                        self.reader,
                        self.cik_field,
                        self.ticker_field,
                        self.name_field,
                        query@,
                        limit as int,
                    ) is None);
                }
                return Err(e);
            },
        };
        let mut out: Vec<CompanyRecord> = Vec::new();
        let mut i: usize = 0;
        while i < docs.len()
            invariant
                i <= docs@.len(),
                docs@.len() <= limit,
                self.wf(),
                out@.len() == i,
                forall|j: int|
                    0 <= j < docs@.len() ==> snapshot_docs(
                        self.reader,
                        self.cik_field,
                        self.ticker_field,
                        self.name_field,
                    ).contains(
                        #[trigger] doc_record(
                            docs@[j],
                            self.cik_field,
                            self.ticker_field,
                            self.name_field,
                        ),
                    ),
                forall|j: int| 0 <= j < i ==> self.snapshot().contains((#[trigger] out@[j])@),
                forall|j: int|
                    0 <= j < i ==> (#[trigger] out@[j])@ == doc_record(
                        docs@[j],
                        self.cik_field,
                        self.ticker_field,
                        self.name_field,
                    ),
            decreases docs@.len() - i,
        {
            let rec = self.extract_record(&docs[i]);
            out.push(rec);
            i = i + 1;
        }
        proof {
            assert(out@.map_values(|x: CompanyRecord| x@) =~= docs@.map_values(
                |d: tantivy::Document| doc_record(
                    d,
                    self.cik_field,
                    self.ticker_field,
                    self.name_field,
                ),
            ));
            assert(query_hits(
                self.reader,
                self.cik_field,
                self.ticker_field,
                self.name_field,
                query@,
                limit as int,
            ) matches Some(h) && docs@.map_values(
                |d: tantivy::Document| doc_record(
                    d,
                    self.cik_field,
                    self.ticker_field,
                    self.name_field,
                ),
            ) == h);
            assert(docs@.len() == min_int(
                limit as int,
                query_match_count(
                    self.reader,
                    self.cik_field,
                    self.ticker_field,
                    self.name_field,
                    query@,
                ),
            ));
        }
        Ok(out)
    }
}

} // verus!
