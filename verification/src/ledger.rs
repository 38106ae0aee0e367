//! The sales ledger: the committed sales, oldest first. A record that has
//! been appended is never changed or removed.

use vstd::prelude::*;

use crate::error::InventoryError;
use crate::inventory::InventoryStore;
use crate::ranking::{all_lines, is_top_selling, top_selling};
use crate::sale::{SaleRecord, SaleRecordView};
use crate::views::lemma_deep_view_push;

verus! {

/// The committed sales, in the order in which they were made.
#[derive(Debug)]
pub struct SalesLedger {
    records: Vec<SaleRecord>,
}

impl View for SalesLedger {
    type V = Seq<SaleRecordView>;

    closed spec fn view(&self) -> Seq<SaleRecordView> {
        self.records.deep_view()
    }
}

impl SalesLedger {
    /// An empty ledger.
    pub fn new() -> (ledger: SalesLedger)
        ensures
            ledger@ == Seq::<SaleRecordView>::empty(),
    {
        let ledger = SalesLedger { records: Vec::new() };
        assert(ledger@ =~= Seq::empty());
        ledger
    }

    /// Records a sale against the store: all of its lines or none.
    ///
    /// An accepted sale takes every line out of stock, appends one record with
    /// the given timestamp to the ledger and returns a copy of it. A refused
    /// sale changes neither the store nor the ledger, and reports the first
    /// line that cannot be served.
    pub fn record_sale(
        &mut self,
        store: &mut InventoryStore,
        items: Vec<(u64, u64)>,
        timestamp: u64,
    ) -> (r: Result<SaleRecord, InventoryError>)
        ensures
            final(store)@.valid(),
            match r {
                Ok(record) => {
                    &&& old(store)@.sale_ok(items@)
                    &&& record@ == (SaleRecordView {
                        timestamp,
                        items: old(store)@.sale_lines(items@),
                    })
                    &&& final(store)@ == old(store)@.after_sale(items@)
                    &&& final(self)@ == old(self)@.push(record@)
                },
                Err(e) => {
                    &&& *final(store) == *old(store)
                    &&& *final(self) == *old(self)
                    &&& exists|k: int|
                        old(store)@.first_refused(items@, k) && e@ == old(store)@.refusal(items@, k)
                },
            },
    {
        let sold = match store.sell(&items) {
            Ok(sold) => sold,
            Err(e) => {
                return Err(e);
            },
        };
        let record = SaleRecord { timestamp, items: sold };
        let copy = record.clone();
        let ghost before = self.records;
        self.records.push(record);
        proof {
            lemma_deep_view_push(before, self.records, record);
        }
        Ok(copy)
    }

    /// Every record, oldest first.
    pub fn get_sales(&self) -> (all: Vec<SaleRecord>)
        ensures
            all.deep_view() == self@,
    {
        let mut all: Vec<SaleRecord> = Vec::new();
        let mut i: usize = 0;
        while i < self.records.len()
            invariant
                i <= self.records@.len(),
                all.deep_view() == self@.take(i as int),
            decreases self.records@.len() - i,
        {
            let ghost before = all;
            let record = self.records[i].clone();
            all.push(record);
            proof {
                lemma_deep_view_push(before, all, record);
                assert(self@.take(i + 1) =~= self@.take(i as int).push(record@));
            }
            i += 1;
        }
        assert(self@.take(i as int) =~= self@);
        all
    }

    /// The `n` best-selling names with the units sold under each, best first.
    ///
    /// Units are counted by name over every line of every record. Among names
    /// with the same count, the one that was sold first comes first. Fewer
    /// than `n` names are returned when fewer were sold.
    pub fn get_top_selling_items(&self, n: usize) -> (top: Vec<(String, u64)>)
        ensures
            is_top_selling(all_lines(self@), n as nat, top.deep_view()),
    {
        top_selling(&self.records, n)
    }
}

} // verus!
