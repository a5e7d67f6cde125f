//! The store's two collections: settings, whose writes overwrite, and the
//! engine registry, whose writes keep the first path registered for an id.

use vstd::prelude::*;
use crate::table::{
    applied, inserted_if_absent, is_delete_change, is_insert_change, is_upsert_change, keys_unique,
    lookup, opt_view, removed, rows_view, upserted, Change, RowView, Table,
};

verus! {

/// A stored setting.
pub struct SqlSetting {
    pub key: String,
    pub value: String,
}

/// A registered engine binary.
pub struct SqlEngine {
    pub engine_id: String,
    pub binary_location: String,
}

/// Settings as the contracts see them, in storage order.
pub open spec fn settings_view(v: Seq<SqlSetting>) -> Seq<RowView> {
    v.map_values(|s: SqlSetting| (s.key@, s.value@))
}

/// Engines as the contracts see them, in storage order.
pub open spec fn engines_view(v: Seq<SqlEngine>) -> Seq<RowView> {
    v.map_values(|e: SqlEngine| (e.engine_id@, e.binary_location@))
}

/// The contents of the store: settings by key, engine paths by engine id.
pub ghost struct DbView {
    pub settings: Seq<RowView>,
    pub engines: Seq<RowView>,
}

/// The contents of the store.
pub struct Db {
    settings: Table,
    engines: Table,
}

impl View for Db {
    type V = DbView;

    closed spec fn view(&self) -> DbView {
        DbView { settings: self.settings@, engines: self.engines@ }
    }
}

impl Db {
    /// Identities are unique within each collection.
    pub open spec fn wf(&self) -> bool {
        keys_unique(self@.settings) && keys_unique(self@.engines)
    }

    /// An empty store.
    pub fn new() -> (d: Db)
        ensures
            d.wf(),
            d@.settings == Seq::<RowView>::empty(),
            d@.engines == Seq::<RowView>::empty(),
    {
        Db { settings: Table::new(), engines: Table::new() }
    }

    /// The store holding these two collections.
    pub fn from_tables(settings: Table, engines: Table) -> (d: Db)
        requires
            settings.wf(),
            engines.wf(),
        ensures
            d.wf(),
            d@.settings == settings@,
            d@.engines == engines@,
    {
        Db { settings, engines }
    }

    /// Stores `value` under `key`: a present setting is overwritten in place,
    /// an absent one appended. Returns the one change made.
    pub fn update_setting(&mut self, key: &str, value: &str) -> (c: Change)
        requires
            old(self).wf(),
        ensures
            final(self).wf(),
            final(self)@.settings == upserted(old(self)@.settings, key@, value@),
            final(self)@.settings == applied(old(self)@.settings, c),
            is_upsert_change(old(self)@.settings, key@, value@, c),
            final(self)@.engines == old(self)@.engines,
    {
        self.settings.upsert(key, value)
    }

    /// Removes the setting under `key`; an absent key changes nothing.
    pub fn delete_setting(&mut self, key: &str) -> (c: Change)
        requires
            old(self).wf(),
        ensures
            final(self).wf(),
            final(self)@.settings == removed(old(self)@.settings, key@),
            final(self)@.settings == applied(old(self)@.settings, c),
            is_delete_change(old(self)@.settings, key@, c),
            final(self)@.engines == old(self)@.engines,
    {
        self.settings.remove(key)
    }

    /// The value stored under `key`, if any.
    pub fn get_setting(&self, key: &str) -> (r: Option<String>)
        requires
            self.wf(),
        ensures
            opt_view(r) == lookup(self@.settings, key@),
    {
        self.settings.get(key)
    }

    /// Every setting, in storage order.
    pub fn get_all_settings(&self) -> (r: Vec<SqlSetting>)
        ensures
            settings_view(r@) == self@.settings,
    {
        let rows = self.settings.entries();
        let mut r: Vec<SqlSetting> = Vec::new();
        let mut i: usize = 0;
        while i < rows.len()
            invariant
                rows_view(rows@) == self@.settings,
                0 <= i <= rows@.len(),
                settings_view(r@) == rows_view(rows@).take(i as int),
            decreases rows@.len() - i,
        {
            let key = rows[i].0.clone();
            let value = rows[i].1.clone();
            let ghost before = r@;
            let ghost kv = (key@, value@);
            r.push(SqlSetting { key, value });
            assert(rows_view(rows@)[i as int] == kv);
            assert(settings_view(r@) =~= settings_view(before).push(kv));
            assert(settings_view(r@) =~= rows_view(rows@).take(i + 1));
            i = i + 1;
        }
        assert(rows_view(rows@).take(i as int) =~= rows_view(rows@));
        r
    }

    /// Registers `binary_location` under `engine_id` unless the id is already
    /// registered, in which case the existing record stays as it is.
    pub fn add_engine(&mut self, engine_id: &str, binary_location: &str) -> (c: Change)
        requires
            old(self).wf(),
        ensures
            final(self).wf(),
            final(self)@.engines == inserted_if_absent(
                old(self)@.engines,
                engine_id@,
                binary_location@,
            ),
            final(self)@.engines == applied(old(self)@.engines, c),
            is_insert_change(old(self)@.engines, engine_id@, binary_location@, c),
            final(self)@.settings == old(self)@.settings,
    {
        self.engines.insert_if_absent(engine_id, binary_location)
    }

    /// Removes the engine `engine_id`; an unknown id changes nothing.
    pub fn delete_engine(&mut self, engine_id: &str) -> (c: Change)
        requires
            old(self).wf(),
        ensures
            final(self).wf(),
            final(self)@.engines == removed(old(self)@.engines, engine_id@),
            final(self)@.engines == applied(old(self)@.engines, c),
            is_delete_change(old(self)@.engines, engine_id@, c),
            final(self)@.settings == old(self)@.settings,
    {
        self.engines.remove(engine_id)
    }

    /// The path registered for `engine_id`, if any.
    pub fn get_engine_binary_path(&self, engine_id: &str) -> (r: Option<String>)
        requires
            self.wf(),
        ensures
            opt_view(r) == lookup(self@.engines, engine_id@),
    {
        self.engines.get(engine_id)
    }

    /// Every registered engine, in storage order.
    pub fn get_all_engine_binary_paths(&self) -> (r: Vec<SqlEngine>)
        ensures
            engines_view(r@) == self@.engines,
    {
        let rows = self.engines.entries();
        let mut r: Vec<SqlEngine> = Vec::new();
        let mut i: usize = 0;
        while i < rows.len()
            invariant
                rows_view(rows@) == self@.engines,
                0 <= i <= rows@.len(),
                engines_view(r@) == rows_view(rows@).take(i as int),
            decreases rows@.len() - i,
        {
            let engine_id = rows[i].0.clone();
            let binary_location = rows[i].1.clone();
            let ghost before = r@;
            let ghost kv = (engine_id@, binary_location@);
            r.push(SqlEngine { engine_id, binary_location });
            assert(rows_view(rows@)[i as int] == kv);
            assert(engines_view(r@) =~= engines_view(before).push(kv));
            assert(engines_view(r@) =~= rows_view(rows@).take(i + 1));
            i = i + 1;
        }
        assert(rows_view(rows@).take(i as int) =~= rows_view(rows@));
        r
    }

    /// The number of registered engines (at most `i64::MAX`, which no
    /// collection in memory reaches).
    pub fn get_engine_count(&self) -> (n: i64)
        ensures
            self@.engines.len() <= i64::MAX ==> n == self@.engines.len(),
            self@.engines.len() > i64::MAX ==> n == i64::MAX,
    {
        let n = self.engines.len();
        if (n as u64) <= (i64::MAX as u64) {
            n as i64
        } else {
            i64::MAX
        }
    }
}

} // verus!
