//! A store's record: its complaints, how each counts, and what an empty
//! record says.

use crate::seqs;
use crate::text;
use vstd::prelude::*;

verus! {

/// What a complaint is about. Never free text: a record is public, permanent
/// and moderated by nobody.
#[derive(Debug, Clone, Copy, PartialEq, Eq, Structural)]
pub enum FeedbackCategory {
    NonDelivery,
    Misrepresented,
    Counterfeit,
}

/// What a category is called wherever a complaint is shown or offered.
pub open spec fn category_words(category: FeedbackCategory) -> Seq<char> {
    match category {
        FeedbackCategory::NonDelivery => "Not delivered"@,
        FeedbackCategory::Misrepresented => "Not as described"@,
        FeedbackCategory::Counterfeit => "Counterfeit"@,
    }
}

/// What a category is called wherever a complaint is shown or offered.
pub fn category_label(category: &FeedbackCategory) -> (r: &'static str)
    ensures
        r@ == category_words(*category),
{
    match category {
        FeedbackCategory::NonDelivery => "Not delivered",
        FeedbackCategory::Misrepresented => "Not as described",
        FeedbackCategory::Counterfeit => "Counterfeit",
    }
}

/// How a complaint counts.
#[derive(Debug, Clone, Copy, PartialEq, Eq, Structural)]
pub enum ComplaintStanding {
    Counts,
    /// It was made after the complaint window closed.
    Late { closed_at: u32 },
    /// The payment of its order was reversed since.
    PaymentReversed { counted: bool },
    /// Its order was paid through a bridge this reader does not recognise.
    BridgeNotRecognised,
}

impl ComplaintStanding {
    /// Whether a complaint that stands so counts against the seller.
    pub open spec fn is_counted(self) -> bool {
        match self {
            ComplaintStanding::Counts => true,
            ComplaintStanding::Late { .. } => false,
            ComplaintStanding::PaymentReversed { counted } => counted,
            ComplaintStanding::BridgeNotRecognised => false,
        }
    }

    /// Whether a complaint that stands so counts against the seller.
    pub fn counts(&self) -> (r: bool)
        ensures
            r == self.is_counted(),
    {
        match self {
            ComplaintStanding::Counts => true,
            ComplaintStanding::Late { .. } => false,
            ComplaintStanding::PaymentReversed { counted } => *counted,
            ComplaintStanding::BridgeNotRecognised => false,
        }
    }
}

/// One complaint as a reader sees it: what it says, and how it counts.
#[derive(Debug, Clone, Copy, PartialEq, Eq)]
pub struct ComplaintRow {
    pub order_id: [u8; 32],
    pub category: FeedbackCategory,
    /// The block the complaint was made at or after.
    pub block_height: u32,
    pub standing: ComplaintStanding,
}

/// A store's complaints the way its record shows them: the ones this reader
/// judges, and apart from them the ones about orders paid through a bridge
/// this reader does not recognise, which are never counted.
#[derive(Debug, Clone, PartialEq, Eq)]
pub struct RecordSections {
    /// Complaints on orders a recognised bridge attested.
    pub judged: Vec<ComplaintRow>,
    /// Complaints on orders paid, per a bridge the reader does not recognise.
    pub unrecognised: Vec<ComplaintRow>,
}

/// Whether a complaint is set apart from those the reader judges.
pub open spec fn is_apart(row: ComplaintRow) -> bool {
    row.standing == ComplaintStanding::BridgeNotRecognised
}

/// How many of some complaints count against the seller.
pub open spec fn counted_in(rows: Seq<ComplaintRow>) -> nat {
    rows.filter(|r: ComplaintRow| r.standing.is_counted()).len()
}

impl RecordSections {
    /// The sections of a record, each in the record's order.
    pub fn of(complaints: &Vec<ComplaintRow>) -> (r: Self)
        ensures
            r.judged@ == complaints@.filter(|c: ComplaintRow| !is_apart(c)),
            r.unrecognised@ == complaints@.filter(|c: ComplaintRow| is_apart(c)),
    {
        let ghost judge = |c: ComplaintRow| !is_apart(c);
        let ghost apart = |c: ComplaintRow| is_apart(c);
        let mut judged: Vec<ComplaintRow> = Vec::new();
        let mut unrecognised: Vec<ComplaintRow> = Vec::new();
        let mut i: usize = 0;
        proof {
            seqs::lemma_filter_none(complaints@, judge);
            seqs::lemma_filter_none(complaints@, apart);
        }
        while i < complaints.len()
            invariant
                i <= complaints.len(),
                judge == (|c: ComplaintRow| !is_apart(c)),
                apart == (|c: ComplaintRow| is_apart(c)),
                judged@ == complaints@.take(i as int).filter(judge),
                unrecognised@ == complaints@.take(i as int).filter(apart),
            decreases complaints.len() - i,
        {
            proof {
                seqs::lemma_filter_step(complaints@, judge, i as int);
                seqs::lemma_filter_step(complaints@, apart, i as int);
            }
            let row = complaints[i];
            if row.standing == ComplaintStanding::BridgeNotRecognised {
                unrecognised.push(row);
            } else {
                judged.push(row);
            }
            i = i + 1;
        }
        assert(complaints@.take(i as int) =~= complaints@);
        RecordSections { judged, unrecognised }
    }

    /// How many complaints count against the seller.
    pub fn counted(&self) -> (n: usize)
        ensures
            n == counted_in(self.judged@),
            n <= self.judged@.len(),
    {
        let ghost keep = |r: ComplaintRow| r.standing.is_counted();
        let mut n: usize = 0;
        let mut i: usize = 0;
        proof {
            seqs::lemma_filter_none(self.judged@, keep);
        }
        while i < self.judged.len()
            invariant
                i <= self.judged.len(),
                n <= i,
                keep == (|r: ComplaintRow| r.standing.is_counted()),
                n == self.judged@.take(i as int).filter(keep).len(),
            decreases self.judged.len() - i,
        {
            proof {
                seqs::lemma_filter_step(self.judged@, keep, i as int);
            }
            if self.judged[i].standing.counts() {
                n = n + 1;
            }
            i = i + 1;
        }
        assert(self.judged@.take(i as int) =~= self.judged@);
        n
    }
}

/// What counts against a seller is what counts in the whole record: the
/// complaints set apart add nothing to it, and every complaint is in one of
/// the two sections.
pub proof fn setting_complaints_apart_changes_no_count(complaints: Seq<ComplaintRow>)
    ensures
        counted_in(complaints.filter(|c: ComplaintRow| !is_apart(c))) == counted_in(complaints),
        counted_in(complaints.filter(|c: ComplaintRow| is_apart(c))) == 0,
        complaints.filter(|c: ComplaintRow| !is_apart(c)).len() + complaints.filter(
            |c: ComplaintRow| is_apart(c),
        ).len() == complaints.len(),
    decreases complaints.len(),
{
    reveal(Seq::filter);
    let judge = |c: ComplaintRow| !is_apart(c);
    let apart = |c: ComplaintRow| is_apart(c);
    let keep = |r: ComplaintRow| r.standing.is_counted();
    if complaints.len() > 0 {
        let rest = complaints.drop_last();
        let last = complaints.last();
        setting_complaints_apart_changes_no_count(rest);
        let a = rest.filter(judge);
        let b = rest.filter(apart);
        assert(a.push(last).drop_last() =~= a);
        assert(b.push(last).drop_last() =~= b);
        assert(a.push(last).filter(keep) == (if keep(last) {
            a.filter(keep).push(last)
        } else {
            a.filter(keep)
        }));
        assert(b.push(last).filter(keep) == (if keep(last) {
            b.filter(keep).push(last)
        } else {
            b.filter(keep)
        }));
        assert(rest.filter(keep).push(last).len() == rest.filter(keep).len() + 1);
    }
}

/// How far a store's record has been read.
#[derive(Debug, Clone, Copy, PartialEq, Eq, Structural)]
pub enum RecordLoad {
    Loading,
    Loaded,
    NotFound,
    Unavailable,
}

/// What a record with no complaints to show says; `badge` is what the store's
/// badge says of a record read so far.
pub open spec fn empty_words(record: RecordLoad, badge: Seq<char>) -> Seq<char> {
    match record {
        RecordLoad::Loaded => "No complaints."@,
        _ => badge + "."@,
    }
}

/// What a record with no complaints to show says: "No complaints" only once
/// the record has been read, and until then the words of the store's badge,
/// so that opening a record never turns one that could not be read into a
/// clean one.
pub fn empty_record_text(record: RecordLoad, badge: &str) -> (r: String)
    ensures
        r@ == empty_words(record, badge@),
{
    if record == RecordLoad::Loaded {
        return "No complaints.".to_string();
    }
    let mut words = badge.to_string();
    words.append(".");
    words
}

/// What a record says above its complaints.
#[derive(Debug, Clone, PartialEq, Eq)]
pub struct RecordWords {
    pub judged: String,
    /// How many complaints are set apart, where some are.
    pub unrecognised: Option<String>,
}

/// What a record says above its complaints.
pub fn record_words(sections: &RecordSections, empty_text: &str) -> (r: RecordWords)
    ensures
        r.judged@ == (if sections.judged@.len() == 0 && sections.unrecognised@.len() == 0 {
            empty_text@
        } else if sections.judged@.len() == 0 {
            "No complaints counted"@
        } else {
            text::decimal(counted_in(sections.judged@)) + " complaint(s) counted, of "@
                + text::decimal(sections.judged@.len()) + " on record"@
        }),
        (match r.unrecognised {
            Some(words) => sections.unrecognised@.len() > 0 && words@ == "Not counted: "@
                + text::decimal(sections.unrecognised@.len())
                + " paid, per a bridge you don't recognise"@,
            None => sections.unrecognised@.len() == 0,
        }),
{
    let judged = if sections.judged.len() == 0 && sections.unrecognised.len() == 0 {
        empty_text.to_string()
    } else if sections.judged.len() == 0 {
        "No complaints counted".to_string()
    } else {
        let mut words = text::join3(
            &text::count_text(sections.counted()),
            " complaint(s) counted, of ",
            &text::count_text(sections.judged.len()),
        );
        words.append(" on record");
        words
    };
    let unrecognised = if sections.unrecognised.len() > 0 {
        Some(
            text::join3(
                "Not counted: ",
                &text::count_text(sections.unrecognised.len()),
                " paid, per a bridge you don't recognise",
            ),
        )
    } else {
        None
    };
    RecordWords { judged, unrecognised }
}

/// What a complaint's card says about how it counts. One that counts needs no
/// word, and one set apart is listed under a heading that says why.
pub open spec fn standing_words(standing: ComplaintStanding) -> Option<Seq<char>> {
    match standing {
        ComplaintStanding::Counts => None,
        ComplaintStanding::Late { closed_at } => Some(
            "Made after the complaint window closed at block "@ + text::decimal(closed_at as nat)
                + ", so it is not counted."@,
        ),
        ComplaintStanding::PaymentReversed { counted } => Some(
            if counted {
                "Payment reversed on the Bitcoin chain since; still counted."@
            } else {
                "Payment reversed on the Bitcoin chain since, so it is not counted."@
            },
        ),
        ComplaintStanding::BridgeNotRecognised => None,
    }
}

/// What a complaint's card says about how it counts.
pub fn complaint_note(standing: ComplaintStanding) -> (r: Option<String>)
    ensures
        (match r {
            Some(words) => standing_words(standing) == Some(words@),
            None => standing_words(standing) is None,
        }),
{
    match standing {
        ComplaintStanding::Counts => None,
        ComplaintStanding::Late { closed_at } => Some(
            text::join3(
                "Made after the complaint window closed at block ",
                &text::decimal_text(closed_at as u64),
                ", so it is not counted.",
            ),
        ),
        ComplaintStanding::PaymentReversed { counted } => if counted {
            Some("Payment reversed on the Bitcoin chain since; still counted.".to_string())
        } else {
            Some("Payment reversed on the Bitcoin chain since, so it is not counted.".to_string())
        },
        ComplaintStanding::BridgeNotRecognised => None,
    }
}

/// The line of a complaint's card that says which order it is about, and
/// when it was made; `short` is the order's id in short.
pub fn complaint_line(short: &str, block_height: u32) -> (r: String)
    ensures
        r@ == "order "@ + short@ + " \u{00b7} made at or after block "@ + text::decimal(
            block_height as nat,
        ),
{
    let mut words = text::join3("order ", short, " \u{00b7} made at or after block ");
    words.append(&text::decimal_text(block_height as u64));
    words
}

/// A complaint counts where it counts outright or where its payment was
/// reversed and it is counted still; a late one and one of a bridge that is
/// not recognised never do. Only the last is set apart.
pub proof fn a_complaint_counts_by_its_standing(row: ComplaintRow, closed_at: u32, counted: bool)
    ensures
        ComplaintStanding::Counts.is_counted(),
        !(ComplaintStanding::Late { closed_at }).is_counted(),
        (ComplaintStanding::PaymentReversed { counted }).is_counted() <==> counted,
        !ComplaintStanding::BridgeNotRecognised.is_counted(),
        is_apart(row) <==> row.standing is BridgeNotRecognised,
{
}

/// A complaint more counts one more exactly where it counts.
pub proof fn each_complaint_that_counts_counts_once(rows: Seq<ComplaintRow>, row: ComplaintRow)
    ensures
        counted_in(Seq::empty()) == 0,
        counted_in(rows.push(row)) == counted_in(rows) + (if row.standing.is_counted() {
            1nat
        } else {
            0
        }),
{
    reveal(Seq::filter);
    assert(rows.push(row).drop_last() =~= rows);
}

/// A complaint's note says why it does not count, or that it counts although
/// its payment was reversed, and tells the block a late one was late by; one
/// that counts outright, and one that is set apart, has none.
pub proof fn a_note_says_why_a_complaint_does_not_count(closed_at: u32)
    ensures
        standing_words(ComplaintStanding::Counts) is None,
        standing_words(ComplaintStanding::BridgeNotRecognised) is None,
        standing_words(ComplaintStanding::Late { closed_at }) == Some(
            "Made after the complaint window closed at block "@ + text::decimal(closed_at as nat)
                + ", so it is not counted."@,
        ),
        standing_words(ComplaintStanding::PaymentReversed { counted: true }) == Some(
            "Payment reversed on the Bitcoin chain since; still counted."@,
        ),
        standing_words(ComplaintStanding::PaymentReversed { counted: false }) == Some(
            "Payment reversed on the Bitcoin chain since, so it is not counted."@,
        ),
{
}

/// A record without complaints says so only once it is loaded; before that it
/// says what its badge says.
pub proof fn an_empty_record_is_clean_only_once_loaded(record: RecordLoad, badge: Seq<char>)
    ensures
        empty_words(RecordLoad::Loaded, badge) == "No complaints."@,
        !(record is Loaded) ==> empty_words(record, badge) == badge + "."@,
{
}

/// Each kind of complaint has its own words.
pub proof fn each_kind_of_complaint_has_its_own_words(a: FeedbackCategory, b: FeedbackCategory)
    ensures
        category_words(FeedbackCategory::NonDelivery) == "Not delivered"@,
        category_words(FeedbackCategory::Misrepresented) == "Not as described"@,
        category_words(FeedbackCategory::Counterfeit) == "Counterfeit"@,
        category_words(a) == category_words(b) ==> a == b,
{
    reveal_strlit("Not delivered");
    reveal_strlit("Not as described");
    reveal_strlit("Counterfeit");
    assert("Not delivered"@.len() == 13);
    assert("Not as described"@.len() == 16);
    assert("Counterfeit"@.len() == 11);
}

} // verus!
