//! The transaction synthesizer and the small rules of the ledger backend's
//! HTTP interface: the request payload shape, the endpoint paths, the
//! authorization header, and what counts as success.

use vstd::prelude::*;
use vstd::string::*;

verus! {

/// One transaction record as the ledger backend takes it. The amount and the
/// date are kept as their request text: the amount as its validated token,
/// the date as local-offset RFC 3339 text.
pub struct Transaction {
    pub transaction_type: String,
    pub date: String,
    pub amount: String,
    pub description: String,
    pub category_name: String,
    pub source_id: i64,
    pub destination_name: String,
    pub tags: Vec<String>,
    pub notes: Option<String>,
}

#[verifier::ext_equal]
pub struct TransactionV {
    pub transaction_type: Seq<char>,
    pub date: Seq<char>,
    pub amount: Seq<char>,
    pub description: Seq<char>,
    pub category_name: Seq<char>,
    pub source_id: i64,
    pub destination_name: Seq<char>,
    pub tags: Seq<Seq<char>>,
    pub notes: Option<Seq<char>>,
}

impl View for Transaction {
    type V = TransactionV;

    open spec fn view(&self) -> TransactionV {
        TransactionV {
            transaction_type: self.transaction_type@,
            date: self.date@,
            amount: self.amount@,
            description: self.description@,
            category_name: self.category_name@,
            source_id: self.source_id,
            destination_name: self.destination_name@,
            tags: self.tags.deep_view(),
            notes: self.notes.deep_view(),
        }
    }
}

/// The withdrawal synthesized from an `!add` request: the sender is appended
/// to the tags as an audit marker (never deduplicated), and the description
/// is `"<category> by <sender>"`.
pub open spec fn withdrawal_spec(
    category: Seq<char>,
    amount: Seq<char>,
    date: Seq<char>,
    source_id: i64,
    destination_name: Seq<char>,
    person: Seq<char>,
    notes: Option<Seq<char>>,
    tags: Seq<Seq<char>>,
) -> TransactionV {
    TransactionV {
        transaction_type: "withdrawal"@,
        date,
        amount,
        description: category + " by "@ + person,
        category_name: category,
        source_id,
        destination_name,
        tags: tags.push(person),
        notes,
    }
}

impl Transaction {
    /// Synthesizes a withdrawal record, exactly as `withdrawal_spec` says.
    pub fn withdrawal(
        category: String,
        amount: String,
        date: String,
        source_id: i64,
        destination_name: String,
        person: String,
        notes: Option<String>,
        tags: Vec<String>,
    ) -> (t: Transaction)
        ensures
            t@ == withdrawal_spec(
                category@,
                amount@,
                date@,
                source_id,
                destination_name@,
                person@,
                notes.deep_view(),
                tags.deep_view(),
            ),
    {
        let ghost old_tags = tags.deep_view();
        let ghost personv = person@;
        let mut tags = tags;
        let mut description = category.clone();
        description.append(" by ");
        description.append(person.as_str());
        tags.push(person);
        let t = Transaction {
            transaction_type: String::from_str("withdrawal"),
            date,
            amount,
            description,
            category_name: category,
            source_id,
            destination_name,
            tags,
            notes,
        };
        proof {
            assert(t@.tags =~= old_tags.push(personv));
        }
        t
    }
}

/// The one-element payload the create-transaction endpoint takes.
pub struct Transactions {
    pub transactions: Vec<Transaction>,
}

impl Transactions {
    pub fn new(transaction: Transaction) -> (r: Transactions)
        ensures
            r.transactions@.len() == 1,
            r.transactions@[0] == transaction,
    {
        let mut transactions: Vec<Transaction> = Vec::new();
        transactions.push(transaction);
        Transactions { transactions }
    }
}

/// One entry of the backend's category listing: its identifier and its name.
pub struct Category {
    pub id: String,
    pub name: String,
}

/// The names of the listed categories, in response order.
pub fn category_names(data: Vec<Category>) -> (names: Vec<String>)
    ensures
        names.deep_view() == data@.map_values(|c: Category| c.name@),
{
    let mut names: Vec<String> = Vec::new();
    let mut i: usize = 0;
    while i < data.len()
        invariant
            0 <= i <= data@.len(),
            names.deep_view() =~= data@.take(i as int).map_values(|c: Category| c.name@),
        decreases data@.len() - i,
    {
        let ghost old_names = names.deep_view();
        names.push(data[i].name.clone());
        proof {
            assert(names.deep_view() =~= old_names.push(data@[i as int].name@));
            assert(data@.take(i + 1).map_values(|c: Category| c.name@)
                =~= data@.take(i as int).map_values(|c: Category| c.name@).push(
                data@[i as int].name@,
            ));
        }
        i = i + 1;
    }
    proof {
        assert(data@.take(data@.len() as int) =~= data@);
    }
    names
}

/// The create-transaction endpoint under the configured base URL.
pub fn transactions_url(base_url: &str) -> (url: String)
    ensures
        url@ == base_url@ + "/api/v1/transactions"@,
{
    let mut url = String::from_str(base_url);
    url.append("/api/v1/transactions");
    url
}

/// The list-categories endpoint under the configured base URL.
pub fn categories_url(base_url: &str) -> (url: String)
    ensures
        url@ == base_url@ + "/api/v1/categories"@,
{
    let mut url = String::from_str(base_url);
    url.append("/api/v1/categories");
    url
}

/// A transaction-creation call against the ledger backend counts as
/// successful exactly when the HTTP status is 200.
pub fn create_succeeded(status: u16) -> (ok: bool)
    ensures
        ok == (status == 200),
{
    status == 200
}

/// The value of the Authorization header both endpoints take.
pub fn bearer_header(api_key: &str) -> (value: String)
    ensures
        value@ == "Bearer "@ + api_key@,
{
    let mut value = String::from_str("Bearer ");
    value.append(api_key);
    value
}

} // verus!
