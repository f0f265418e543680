//! The query, mutation and subscription surface over the table model.
//!
//! Queries decode stored items into records and page them with Relay
//! cursors; mutations write through the codec, publish change events,
//! and gate API-key management on ownership; subscriptions hand out
//! filtered cursors into the change fan-out.

use vstd::prelude::*;

use crate::auth::{ApiKeyCreated, AuthUser, api_key_format_ok, lower_hex, make_api_key,
    sha256_hex, sha256_hex_of};
use crate::condition::{Condition, ConditionModel};
use crate::engine::{Page, matching, opt_usize_view, opt_view, page, spec_page};
use crate::errors::DataError;
use crate::ids::{NodeId, b64_of, split3_spec};
use crate::item::ItemModel;
use crate::keys::str_eq;
use crate::pubsub::{PubSub, Subscriber};
use crate::records::{ApiKey, Device, Electricity, ElectricityInput,
    FinalElectricity, FinalElectricityInput, Place, PlaceCondition, PlaceConditionInput, req_s,
    electricity, final_electricity, place_condition, spec_decode_api_key, spec_decode_device,
    spec_decode_electricity, spec_decode_final_electricity, spec_decode_place,
    spec_decode_place_condition, spec_encode_api_key, spec_encode_electricity,
    spec_encode_electricity_input, spec_encode_final_electricity,
    spec_encode_final_electricity_input, spec_encode_place_condition,
    spec_encode_place_condition_input};
use crate::store::{Table, spec_get, table_model};
use crate::times::{normalize_rfc3339, now_rfc3339, shifted_rfc3339, sk_time, utc_rfc3339_of};

verus! {

/// Any record, fetched by its global identifier.
#[derive(Debug)]
pub enum Node {
    ApiKey(ApiKey),
    Device(Device),
    Electricity(Electricity),
    FinalElectricity(FinalElectricity),
    Place(Place),
    PlaceCondition(PlaceCondition),
}

/// The type tags a global identifier may carry.
pub open spec fn known_prefix(p: Seq<char>) -> bool {
    p == "ApiKey"@ || p == "Device"@ || p == "Place"@ || p == "Electricity"@ || p
        == "FinalElectricity"@ || p == "PlaceCondition"@
}

/// The type tags whose records are looked up under the identifier's own
/// sort key.
pub open spec fn sk_keyed_prefix(p: Seq<char>) -> bool {
    p == "Device"@ || p == "Place"@ || p == "Electricity"@ || p == "FinalElectricity"@ || p
        == "PlaceCondition"@
}

/// The query surface.
pub struct Query;

/// The mutation surface.
pub struct Mutation;

/// The subscription surface.
pub struct Subscription;

/// The record `node` returns for a decoded identifier: the stored item
/// under the identifier's key (API keys under their fixed sentinel sort
/// key), decoded as the type the tag names.
pub open spec fn node_found(
    tm: Seq<ItemModel>,
    prefix: Seq<char>,
    pk: Seq<char>,
    sk: Seq<char>,
    n: Node,
) -> bool {
    match n {
        Node::ApiKey(k) => prefix == "ApiKey"@ && (spec_get(tm, pk, "APIKEY"@) matches Some(it)
            && spec_decode_api_key(it) == Some(k@)),
        Node::Device(d) => prefix == "Device"@ && (spec_get(tm, pk, sk) matches Some(it)
            && spec_decode_device(it) == Some(d@)),
        Node::Place(p) => prefix == "Place"@ && (spec_get(tm, pk, sk) matches Some(it)
            && spec_decode_place(it) == Some(p@)),
        Node::Electricity(e) => prefix == "Electricity"@ && (spec_get(tm, pk, sk) matches Some(
            it,
        ) && spec_decode_electricity(it) == Some(e@)),
        Node::FinalElectricity(e) => prefix == "FinalElectricity"@ && (spec_get(
            tm,
            pk,
            sk,
        ) matches Some(it) && spec_decode_final_electricity(it) == Some(e@)),
        Node::PlaceCondition(p) => prefix == "PlaceCondition"@ && (spec_get(
            tm,
            pk,
            sk,
        ) matches Some(it) && spec_decode_place_condition(it) == Some(p@)),
    }
}

/// Why `node` fails for a decoded identifier: an unknown type tag, a
/// missing record, or a stored item the named type cannot decode.
pub open spec fn node_failed(
    tm: Seq<ItemModel>,
    prefix: Seq<char>,
    pk: Seq<char>,
    sk: Seq<char>,
    e: DataError,
) -> bool {
    ||| (e == DataError::DecodeError && !known_prefix(prefix))
    ||| (e == DataError::NotFound && prefix == "ApiKey"@ && spec_get(tm, pk, "APIKEY"@) is None)
    ||| (e == DataError::NotFound && sk_keyed_prefix(prefix) && spec_get(tm, pk, sk) is None)
    ||| (e == DataError::DecodeError && prefix == "ApiKey"@ && (spec_get(
        tm,
        pk,
        "APIKEY"@,
    ) matches Some(it) && spec_decode_api_key(it) is None))
    ||| (e == DataError::DecodeError && prefix == "Device"@ && (spec_get(tm, pk, sk) matches Some(
        it,
    ) && spec_decode_device(it) is None))
    ||| (e == DataError::DecodeError && prefix == "Place"@ && (spec_get(tm, pk, sk) matches Some(
        it,
    ) && spec_decode_place(it) is None))
    ||| (e == DataError::DecodeError && prefix == "Electricity"@ && (spec_get(
        tm,
        pk,
        sk,
    ) matches Some(it) && spec_decode_electricity(it) is None))
    ||| (e == DataError::DecodeError && prefix == "FinalElectricity"@ && (spec_get(
        tm,
        pk,
        sk,
    ) matches Some(it) && spec_decode_final_electricity(it) is None))
    ||| (e == DataError::DecodeError && prefix == "PlaceCondition"@ && (spec_get(
        tm,
        pk,
        sk,
    ) matches Some(it) && spec_decode_place_condition(it) is None))
}

impl Query {
    /// Fetches the record a decoded global identifier names, dispatching
    /// on its type tag: API keys are looked up under their fixed
    /// sentinel sort key, every other type under the identifier's sort
    /// key. An unknown tag is a `DecodeError`; a missing record is
    /// `NotFound`; a stored item the type cannot decode is a
    /// `DecodeError`.
    pub fn node_of(&self, table: &Table, nid: &NodeId) -> (r: Result<Node, DataError>)
        ensures
            match r {
                Ok(n) => node_found(table@, nid.prefix@, nid.pk@, nid.sk@, n),
                Err(e) => node_failed(table@, nid.prefix@, nid.pk@, nid.sk@, e),
            },
    {
        let p = nid.prefix.as_str();
        if str_eq(p, "ApiKey") {
            let item = table.get(nid.pk.as_str(), "APIKEY")?;
            Ok(Node::ApiKey(ApiKey::decode(item)?))
        } else if str_eq(p, "Device") {
            let item = table.get(nid.pk.as_str(), nid.sk.as_str())?;
            Ok(Node::Device(Device::decode(item)?))
        } else if str_eq(p, "Place") {
            let item = table.get(nid.pk.as_str(), nid.sk.as_str())?;
            Ok(Node::Place(Place::decode(item)?))
        } else if str_eq(p, "Electricity") {
            let item = table.get(nid.pk.as_str(), nid.sk.as_str())?;
            Ok(Node::Electricity(Electricity::decode(item)?))
        } else if str_eq(p, "FinalElectricity") {
            let item = table.get(nid.pk.as_str(), nid.sk.as_str())?;
            Ok(Node::FinalElectricity(FinalElectricity::decode(item)?))
        } else if str_eq(p, "PlaceCondition") {
            let item = table.get(nid.pk.as_str(), nid.sk.as_str())?;
            Ok(Node::PlaceCondition(PlaceCondition::decode(item)?))
        } else {
            Err(DataError::DecodeError)
        }
    }

    /// Fetches the record an opaque global identifier names. A string
    /// the identifier codec cannot decode is a `DecodeError`.
    pub fn node(&self, table: &Table, id: &str) -> (r: Result<Node, DataError>)
        ensures
            match r {
                Ok(n) => {
                    &&& exists|w: Seq<char>| #[trigger] b64_of(w) == id@
                    &&& forall|w: Seq<char>|
                        #[trigger] b64_of(w) == id@ ==> (split3_spec(w) matches Some(t)
                            && node_found(table@, t.0, t.1, t.2, n))
                },
                Err(e) => {
                    ||| (e == DataError::DecodeError && forall|w: Seq<char>|
                        #[trigger] b64_of(w) == id@ ==> split3_spec(w) is None)
                    ||| ((exists|w: Seq<char>| #[trigger] b64_of(w) == id@) && forall|
                    w: Seq<char>|
                        #[trigger] b64_of(w) == id@ ==> (split3_spec(w) matches Some(t)
                            && node_failed(table@, t.0, t.1, t.2, e)))
                },
            },
    {
        let nid = NodeId::from_global_id(id)?;
        self.node_of(table, &nid)
    }

    /// One page of registered devices, decoded.
    pub fn devices(
        &self,
        table: &Table,
        after: Option<&str>,
        before: Option<&str>,
        first: Option<usize>,
        last: Option<usize>,
    ) -> (r: Result<(Vec<Device>, Page), DataError>)
        requires
            table.wf(),
            first matches Some(f) ==> f >= 1,
            last matches Some(l) ==> l >= 1,
        ensures
            ({
                let pm = spec_page(
                    matching(table@, "DEVICE"@, None),
                    opt_view(after),
                    opt_view(before),
                    opt_usize_view(first),
                    opt_usize_view(last),
                );
                match r {
                    Ok((ds, pg)) => {
                        &&& table_model(pg.items@) == pm.items
                        &&& crate::engine::opt_string_view(pg.next_cursor) == pm.next
                        &&& pg.has_previous_page == pm.has_previous_page
                        &&& pg.has_next_page == pm.has_next_page
                        &&& ds@.len() == pm.items.len()
                        &&& forall|i: int|
                            0 <= i < ds@.len() ==> spec_decode_device(pm.items[i]) == Some(
                                #[trigger] ds@[i]@,
                            )
                    },
                    Err(e) => e == DataError::DecodeError && exists|i: int|
                        0 <= i < pm.items.len() && spec_decode_device(#[trigger] pm.items[i])
                            is None,
                }
            }),
    {
        let pg = page(table, "DEVICE", None, after, before, first, last);
        let n = pg.items.len();
        let mut ds: Vec<Device> = Vec::new();
        let mut i: usize = 0;
        while i < n
            invariant
                n == pg.items@.len(),
                i <= n,
                ds@.len() == i,
                table_model(pg.items@) == spec_page(
                    matching(table@, "DEVICE"@, None),
                    opt_view(after),
                    opt_view(before),
                    opt_usize_view(first),
                    opt_usize_view(last),
                ).items,
                forall|j: int|
                    0 <= j < i ==> spec_decode_device(table_model(pg.items@)[j]) == Some(
                        #[trigger] ds@[j]@,
                    ),
            decreases n - i,
        {
            proof {
                assert(table_model(pg.items@)[i as int] == pg.items@[i as int]@);
            }
            match Device::decode(&pg.items[i]) {
                Ok(d) => {
                    ds.push(d);
                },
                Err(_) => {
                    proof {
                        assert(spec_decode_device(table_model(pg.items@)[i as int]) is None);
                    }
                    return Err(DataError::DecodeError);
                },
            }
            i = i + 1;
        }
        Ok((ds, pg))
    }

    /// One page of named places, decoded.
    pub fn places(
        &self,
        table: &Table,
        after: Option<&str>,
        before: Option<&str>,
        first: Option<usize>,
        last: Option<usize>,
    ) -> (r: Result<(Vec<Place>, Page), DataError>)
        requires
            table.wf(),
            first matches Some(f) ==> f >= 1,
            last matches Some(l) ==> l >= 1,
        ensures
            ({
                let pm = spec_page(
                    matching(table@, "PLACE"@, None),
                    opt_view(after),
                    opt_view(before),
                    opt_usize_view(first),
                    opt_usize_view(last),
                );
                match r {
                    Ok((ps, pg)) => {
                        &&& table_model(pg.items@) == pm.items
                        &&& crate::engine::opt_string_view(pg.next_cursor) == pm.next
                        &&& pg.has_previous_page == pm.has_previous_page
                        &&& pg.has_next_page == pm.has_next_page
                        &&& ps@.len() == pm.items.len()
                        &&& forall|i: int|
                            0 <= i < ps@.len() ==> spec_decode_place(pm.items[i]) == Some(
                                #[trigger] ps@[i]@,
                            )
                    },
                    Err(e) => e == DataError::DecodeError && exists|i: int|
                        0 <= i < pm.items.len() && spec_decode_place(#[trigger] pm.items[i])
                            is None,
                }
            }),
    {
        let pg = page(table, "PLACE", None, after, before, first, last);
        let n = pg.items.len();
        let mut ps: Vec<Place> = Vec::new();
        let mut i: usize = 0;
        while i < n
            invariant
                n == pg.items@.len(),
                i <= n,
                ps@.len() == i,
                table_model(pg.items@) == spec_page(
                    matching(table@, "PLACE"@, None),
                    opt_view(after),
                    opt_view(before),
                    opt_usize_view(first),
                    opt_usize_view(last),
                ).items,
                forall|j: int|
                    0 <= j < i ==> spec_decode_place(table_model(pg.items@)[j]) == Some(
                        #[trigger] ps@[j]@,
                    ),
            decreases n - i,
        {
            proof {
                assert(table_model(pg.items@)[i as int] == pg.items@[i as int]@);
            }
            match Place::decode(&pg.items[i]) {
                Ok(p) => {
                    ps.push(p);
                },
                Err(_) => {
                    proof {
                        assert(spec_decode_place(table_model(pg.items@)[i as int]) is None);
                    }
                    return Err(DataError::DecodeError);
                },
            }
            i = i + 1;
        }
        Ok((ps, pg))
    }
}

/// The sort-key bound a time-range query uses at one end: the type's
/// prefix followed by the client timestamp shifted one second inward, or
/// by the sentinel at the range's far end when the bound is absent;
/// nothing when the timestamp cannot be parsed or shifted.
pub open spec fn time_bound(prefix: Seq<char>, time: Option<Seq<char>>, after: bool) -> Option<
    Seq<char>,
> {
    match time {
        None => Some(
            prefix + (if after {
                "0001-01-01T00:00:00Z"@
            } else {
                "9999-12-31T23:59:59Z"@
            }),
        ),
        Some(t) => match shifted_rfc3339(t, after) {
            Some(s) => Some(prefix + s),
            None => None,
        },
    }
}

/// The page of matching rows a time-range query sees, once its two
/// bounds resolved: an inclusive `Between` over the prefixed range,
/// paged by `first`/`last` with no cursors.
pub open spec fn range_page(
    rows: Seq<ItemModel>,
    device: Seq<char>,
    lo: Seq<char>,
    hi: Seq<char>,
    first: Option<int>,
    last: Option<int>,
) -> crate::engine::PageModel {
    spec_page(
        matching(rows, device, Some(ConditionModel::Between(lo, hi))),
        None,
        None,
        first,
        last,
    )
}

impl Query {
    /// One page of a device's electricity readings between two optional
    /// RFC 3339 bounds, decoded. An unparsable bound is a
    /// `ValidationError`.
    pub fn electricity(
        &self,
        table: &Table,
        device: &str,
        after: Option<&str>,
        before: Option<&str>,
        first: Option<usize>,
        last: Option<usize>,
    ) -> (r: Result<(Vec<Electricity>, Page), DataError>)
        requires
            table.wf(),
            first matches Some(f) ==> f >= 1,
            last matches Some(l) ==> l >= 1,
        ensures
            ({
                let lo = time_bound("TS#"@, opt_view(after), true);
                let hi = time_bound("TS#"@, opt_view(before), false);
                match r {
                    Ok((es, pg)) => lo is Some && hi is Some && ({
                        let pm = range_page(
                            table@,
                            device@,
                            lo->Some_0,
                            hi->Some_0,
                            opt_usize_view(first),
                            opt_usize_view(last),
                        );
                        &&& table_model(pg.items@) == pm.items
                        &&& crate::engine::opt_string_view(pg.next_cursor) == pm.next
                        &&& pg.has_previous_page == pm.has_previous_page
                        &&& pg.has_next_page == pm.has_next_page
                        &&& es@.len() == pm.items.len()
                        &&& forall|i: int|
                            0 <= i < es@.len() ==> spec_decode_electricity(pm.items[i]) == Some(
                                #[trigger] es@[i]@,
                            )
                    }),
                    Err(e) => {
                        ||| (e == DataError::ValidationError && (lo is None || hi is None))
                        ||| (e == DataError::DecodeError && lo is Some && hi is Some && exists|
                        i: int|
                            0 <= i < range_page(
                                table@,
                                device@,
                                lo->Some_0,
                                hi->Some_0,
                                opt_usize_view(first),
                                opt_usize_view(last),
                            ).items.len() && spec_decode_electricity(
                                #[trigger] range_page(
                                    table@,
                                    device@,
                                    lo->Some_0,
                                    hi->Some_0,
                                    opt_usize_view(first),
                                    opt_usize_view(last),
                                ).items[i],
                            ) is None)
                    },
                }
            }),
    {
        let lo = sk_time("TS#", after, true)?;
        let hi = sk_time("TS#", before, false)?;
        let cond = Condition::Between(lo, hi);
        let ghost lov = time_bound("TS#"@, opt_view(after), true)->Some_0;
        let ghost hiv = time_bound("TS#"@, opt_view(before), false)->Some_0;
        let pg = page(table, device, Some(&cond), None, None, first, last);
        let ghost pm_items = range_page(
            table@,
            device@,
            lov,
            hiv,
            opt_usize_view(first),
            opt_usize_view(last),
        ).items;
        let n = pg.items.len();
        let mut es: Vec<Electricity> = Vec::new();
        let mut i: usize = 0;
        while i < n
            invariant
                n == pg.items@.len(),
                i <= n,
                es@.len() == i,
                table_model(pg.items@) == pm_items,
                time_bound("TS#"@, opt_view(after), true) == Some(lov),
                time_bound("TS#"@, opt_view(before), false) == Some(hiv),
                pm_items == range_page(
                    table@,
                    device@,
                    lov,
                    hiv,
                    opt_usize_view(first),
                    opt_usize_view(last),
                ).items,
                forall|j: int|
                    0 <= j < i ==> spec_decode_electricity(table_model(pg.items@)[j]) == Some(
                        #[trigger] es@[j]@,
                    ),
            decreases n - i,
        {
            proof {
                assert(table_model(pg.items@)[i as int] == pg.items@[i as int]@);
            }
            match Electricity::decode(&pg.items[i]) {
                Ok(e) => {
                    es.push(e);
                },
                Err(_) => {
                    proof {
                        assert(spec_decode_electricity(pm_items[i as int]) is None);
                    }
                    return Err(DataError::DecodeError);
                },
            }
            i = i + 1;
        }
        Ok((es, pg))
    }

    /// One page of a device's finalized readings between two optional
    /// RFC 3339 bounds, decoded.
    pub fn final_electricity(
        &self,
        table: &Table,
        device: &str,
        after: Option<&str>,
        before: Option<&str>,
        first: Option<usize>,
        last: Option<usize>,
    ) -> (r: Result<(Vec<FinalElectricity>, Page), DataError>)
        requires
            table.wf(),
            first matches Some(f) ==> f >= 1,
            last matches Some(l) ==> l >= 1,
        ensures
            ({
                let lo = time_bound("FIN#TS#"@, opt_view(after), true);
                let hi = time_bound("FIN#TS#"@, opt_view(before), false);
                match r {
                    Ok((es, pg)) => lo is Some && hi is Some && ({
                        let pm = range_page(
                            table@,
                            device@,
                            lo->Some_0,
                            hi->Some_0,
                            opt_usize_view(first),
                            opt_usize_view(last),
                        );
                        &&& table_model(pg.items@) == pm.items
                        &&& crate::engine::opt_string_view(pg.next_cursor) == pm.next
                        &&& pg.has_previous_page == pm.has_previous_page
                        &&& pg.has_next_page == pm.has_next_page
                        &&& es@.len() == pm.items.len()
                        &&& forall|i: int|
                            0 <= i < es@.len() ==> spec_decode_final_electricity(pm.items[i])
                                == Some(#[trigger] es@[i]@)
                    }),
                    Err(e) => {
                        ||| (e == DataError::ValidationError && (lo is None || hi is None))
                        ||| (e == DataError::DecodeError && lo is Some && hi is Some && exists|
                        i: int|
                            0 <= i < range_page(
                                table@,
                                device@,
                                lo->Some_0,
                                hi->Some_0,
                                opt_usize_view(first),
                                opt_usize_view(last),
                            ).items.len() && spec_decode_final_electricity(
                                #[trigger] range_page(
                                    table@,
                                    device@,
                                    lo->Some_0,
                                    hi->Some_0,
                                    opt_usize_view(first),
                                    opt_usize_view(last),
                                ).items[i],
                            ) is None)
                    },
                }
            }),
    {
        let lo = sk_time("FIN#TS#", after, true)?;
        let hi = sk_time("FIN#TS#", before, false)?;
        let cond = Condition::Between(lo, hi);
        let ghost lov = time_bound("FIN#TS#"@, opt_view(after), true)->Some_0;
        let ghost hiv = time_bound("FIN#TS#"@, opt_view(before), false)->Some_0;
        let pg = page(table, device, Some(&cond), None, None, first, last);
        let ghost pm_items = range_page(
            table@,
            device@,
            lov,
            hiv,
            opt_usize_view(first),
            opt_usize_view(last),
        ).items;
        let n = pg.items.len();
        let mut es: Vec<FinalElectricity> = Vec::new();
        let mut i: usize = 0;
        while i < n
            invariant
                n == pg.items@.len(),
                i <= n,
                es@.len() == i,
                table_model(pg.items@) == pm_items,
                time_bound("FIN#TS#"@, opt_view(after), true) == Some(lov),
                time_bound("FIN#TS#"@, opt_view(before), false) == Some(hiv),
                pm_items == range_page(
                    table@,
                    device@,
                    lov,
                    hiv,
                    opt_usize_view(first),
                    opt_usize_view(last),
                ).items,
                forall|j: int|
                    0 <= j < i ==> spec_decode_final_electricity(table_model(pg.items@)[j])
                        == Some(#[trigger] es@[j]@),
            decreases n - i,
        {
            proof {
                assert(table_model(pg.items@)[i as int] == pg.items@[i as int]@);
            }
            match FinalElectricity::decode(&pg.items[i]) {
                Ok(e) => {
                    es.push(e);
                },
                Err(_) => {
                    proof {
                        assert(spec_decode_final_electricity(pm_items[i as int]) is None);
                    }
                    return Err(DataError::DecodeError);
                },
            }
            i = i + 1;
        }
        Ok((es, pg))
    }

    /// One page of a device's environment readings between two optional
    /// RFC 3339 bounds, decoded.
    pub fn place_conditions(
        &self,
        table: &Table,
        device: &str,
        after: Option<&str>,
        before: Option<&str>,
        first: Option<usize>,
        last: Option<usize>,
    ) -> (r: Result<(Vec<PlaceCondition>, Page), DataError>)
        requires
            table.wf(),
            first matches Some(f) ==> f >= 1,
            last matches Some(l) ==> l >= 1,
        ensures
            ({
                let lo = time_bound("TS#"@, opt_view(after), true);
                let hi = time_bound("TS#"@, opt_view(before), false);
                match r {
                    Ok((ps, pg)) => lo is Some && hi is Some && ({
                        let pm = range_page(
                            table@,
                            device@,
                            lo->Some_0,
                            hi->Some_0,
                            opt_usize_view(first),
                            opt_usize_view(last),
                        );
                        &&& table_model(pg.items@) == pm.items
                        &&& crate::engine::opt_string_view(pg.next_cursor) == pm.next
                        &&& pg.has_previous_page == pm.has_previous_page
                        &&& pg.has_next_page == pm.has_next_page
                        &&& ps@.len() == pm.items.len()
                        &&& forall|i: int|
                            0 <= i < ps@.len() ==> spec_decode_place_condition(pm.items[i])
                                == Some(#[trigger] ps@[i]@)
                    }),
                    Err(e) => {
                        ||| (e == DataError::ValidationError && (lo is None || hi is None))
                        ||| (e == DataError::DecodeError && lo is Some && hi is Some && exists|
                        i: int|
                            0 <= i < range_page(
                                table@,
                                device@,
                                lo->Some_0,
                                hi->Some_0,
                                opt_usize_view(first),
                                opt_usize_view(last),
                            ).items.len() && spec_decode_place_condition(
                                #[trigger] range_page(
                                    table@,
                                    device@,
                                    lo->Some_0,
                                    hi->Some_0,
                                    opt_usize_view(first),
                                    opt_usize_view(last),
                                ).items[i],
                            ) is None)
                    },
                }
            }),
    {
        let lo = sk_time("TS#", after, true)?;
        let hi = sk_time("TS#", before, false)?;
        let cond = Condition::Between(lo, hi);
        let ghost lov = time_bound("TS#"@, opt_view(after), true)->Some_0;
        let ghost hiv = time_bound("TS#"@, opt_view(before), false)->Some_0;
        let pg = page(table, device, Some(&cond), None, None, first, last);
        let ghost pm_items = range_page(
            table@,
            device@,
            lov,
            hiv,
            opt_usize_view(first),
            opt_usize_view(last),
        ).items;
        let n = pg.items.len();
        let mut ps: Vec<PlaceCondition> = Vec::new();
        let mut i: usize = 0;
        while i < n
            invariant
                n == pg.items@.len(),
                i <= n,
                ps@.len() == i,
                table_model(pg.items@) == pm_items,
                time_bound("TS#"@, opt_view(after), true) == Some(lov),
                time_bound("TS#"@, opt_view(before), false) == Some(hiv),
                pm_items == range_page(
                    table@,
                    device@,
                    lov,
                    hiv,
                    opt_usize_view(first),
                    opt_usize_view(last),
                ).items,
                forall|j: int|
                    0 <= j < i ==> spec_decode_place_condition(table_model(pg.items@)[j]) == Some(
                        #[trigger] ps@[j]@,
                    ),
            decreases n - i,
        {
            proof {
                assert(table_model(pg.items@)[i as int] == pg.items@[i as int]@);
            }
            match PlaceCondition::decode(&pg.items[i]) {
                Ok(p) => {
                    ps.push(p);
                },
                Err(_) => {
                    proof {
                        assert(spec_decode_place_condition(pm_items[i as int]) is None);
                    }
                    return Err(DataError::DecodeError);
                },
            }
            i = i + 1;
        }
        Ok((ps, pg))
    }
}

/// The stored items that belong to an owner's API keys: those whose
/// `user_email` attribute carries the owner's address (the lookup the
/// owner index serves), in table order.
pub open spec fn owned_key_items(rows: Seq<ItemModel>, email: Seq<char>) -> Seq<ItemModel>
    decreases rows.len(),
{
    if rows.len() == 0 {
        Seq::empty()
    } else {
        let rest = owned_key_items(rows.drop_last(), email);
        if req_s(rows.last(), "user_email"@) == Some(email) {
            rest.push(rows.last())
        } else {
            rest
        }
    }
}

/// A row that carries the owner's address is among the owner's items.
proof fn lemma_owned_contains(rows: Seq<ItemModel>, email: Seq<char>, i: int)
    requires
        0 <= i < rows.len(),
        req_s(rows[i], "user_email"@) == Some(email),
    ensures
        exists|j: int|
            0 <= j < owned_key_items(rows, email).len() && #[trigger] owned_key_items(
                rows,
                email,
            )[j] == rows[i],
    decreases rows.len(),
{
    let own = owned_key_items(rows, email);
    if i == rows.len() - 1 {
        assert(own[own.len() - 1] == rows[i]);
    } else {
        let butlast = rows.drop_last();
        assert(butlast[i] == rows[i]);
        lemma_owned_contains(butlast, email, i);
        let j = choose|j: int|
            0 <= j < owned_key_items(butlast, email).len() && #[trigger] owned_key_items(
                butlast,
                email,
            )[j] == butlast[i];
        assert(own[j] == rows[i]);
    }
}

impl Query {
    /// The authenticated principal's API key records, decoded, in table
    /// order.
    pub fn api_keys(&self, table: &Table, auth_user: &AuthUser) -> (r: Result<
        Vec<ApiKey>,
        DataError,
    >)
        ensures
            ({
                let own = owned_key_items(table@, auth_user.email@);
                match r {
                    Ok(ks) => {
                        &&& ks@.len() == own.len()
                        &&& forall|i: int|
                            0 <= i < ks@.len() ==> spec_decode_api_key(own[i]) == Some(
                                #[trigger] ks@[i]@,
                            )
                    },
                    Err(e) => e == DataError::DecodeError && exists|i: int|
                        0 <= i < own.len() && spec_decode_api_key(#[trigger] own[i]) is None,
                }
            }),
    {
        let n = table.rows.len();
        let mut ks: Vec<ApiKey> = Vec::new();
        let mut i: usize = 0;
        while i < n
            invariant
                n == table.rows@.len(),
                i <= n,
                ks@.len() == owned_key_items(table@.subrange(0, i as int), auth_user.email@).len(),
                forall|j: int|
                    0 <= j < ks@.len() ==> spec_decode_api_key(
                        #[trigger] owned_key_items(
                            table@.subrange(0, i as int),
                            auth_user.email@,
                        )[j],
                    ) == Some(ks@[j]@),
            decreases n - i,
        {
            proof {
                assert(table@[i as int] == table.rows@[i as int]@);
                assert(table@.subrange(0, i as int + 1).drop_last() =~= table@.subrange(
                    0,
                    i as int,
                ));
                assert(table@.subrange(0, i as int + 1).last() == table@[i as int]);
            }
            let owned = match table.rows[i].attr_get("user_email") {
                Some(crate::item::Attr::S(s)) => str_eq(s.as_str(), auth_user.email.as_str()),
                _ => false,
            };
            if owned {
                match ApiKey::decode(&table.rows[i]) {
                    Ok(k) => {
                        ks.push(k);
                    },
                    Err(_) => {
                        proof {
                            lemma_owned_contains(table@, auth_user.email@, i as int);
                        }
                        return Err(DataError::DecodeError);
                    },
                }
            }
            i = i + 1;
        }
        proof {
            assert(table@.subrange(0, n as int) =~= table@);
        }
        Ok(ks)
    }
}

/// What a performed API key deletion did: the identifier named an API
/// key the principal owns, and exactly that record is gone.
pub open spec fn delete_performed(
    old_tm: Seq<ItemModel>,
    new_tm: Seq<ItemModel>,
    prefix: Seq<char>,
    pk: Seq<char>,
    email: Seq<char>,
) -> bool {
    &&& prefix == "ApiKey"@
    &&& spec_get(old_tm, pk, "APIKEY"@) matches Some(it) && spec_decode_api_key(
        it,
    ) matches Some(k) && k.user_email == email
    &&& spec_get(new_tm, pk, "APIKEY"@) is None
    &&& forall|p: Seq<char>, s: Seq<char>|
        !(p == pk && s == "APIKEY"@) ==> #[trigger] spec_get(new_tm, p, s) == spec_get(
            old_tm,
            p,
            s,
        )
}

/// Why an API key deletion was refused: the identifier does not name an
/// API key, the key is absent, its record cannot be decoded, or the
/// principal does not own it.
pub open spec fn delete_refused(
    tm: Seq<ItemModel>,
    prefix: Seq<char>,
    pk: Seq<char>,
    email: Seq<char>,
    e: DataError,
) -> bool {
    ||| (e == DataError::ValidationError && prefix != "ApiKey"@)
    ||| (e == DataError::NotFound && spec_get(tm, pk, "APIKEY"@) is None)
    ||| (e == DataError::DecodeError && (spec_get(tm, pk, "APIKEY"@) matches Some(it)
        && spec_decode_api_key(it) is None))
    ||| (e == DataError::Unauthorized && (spec_get(tm, pk, "APIKEY"@) matches Some(it)
        && spec_decode_api_key(it) matches Some(k) && k.user_email != email))
}

impl Mutation {
    /// Writes an electricity reading and publishes it to subscribers.
    pub fn put_electricity(
        &self,
        table: &mut Table,
        pubsub: &mut PubSub,
        input: ElectricityInput,
    ) -> (r: Electricity)
        requires
            old(table).wf(),
        ensures
            final(table).wf(),
            r@.device == input.device@,
            r@.timestamp == input.timestamp@,
            r@.place == match input.place {
                Some(ref p) => p@,
                None => Seq::<char>::empty(),
            },
            r@.cumulative_kwh_p == match input.cumulative_kwh_p {
                Some(ref v) => Some(v@),
                None => None::<Seq<char>>,
            },
            r@.cumulative_kwh_n == match input.cumulative_kwh_n {
                Some(ref v) => Some(v@),
                None => None::<Seq<char>>,
            },
            r@.current_w == input.current_w,
            spec_get(final(table)@, input.device@, "TS#"@ + input.timestamp@) == Some(
                spec_encode_electricity(r@),
            ),
            forall|p: Seq<char>, s: Seq<char>|
                !(p == input.device@ && s == "TS#"@ + input.timestamp@) ==> #[trigger] spec_get(
                    final(table)@,
                    p,
                    s,
                ) == spec_get(old(table)@, p, s),
            final(pubsub).electricity_sender.log@.len() == old(
                pubsub,
            ).electricity_sender.log@.len() + 1,
            final(pubsub).electricity_sender.log@.drop_last() == old(
                pubsub,
            ).electricity_sender.log@,
            final(pubsub).electricity_sender.log@.last().1@ == r@,
            final(pubsub).final_electricity_sender == old(pubsub).final_electricity_sender,
            final(pubsub).place_condition_sender == old(pubsub).place_condition_sender,
    {
        let new = electricity(input);
        let item = new.encode();
        let copy = new.duplicate();
        table.put(item);
        pubsub.publish_electricity(copy);
        proof {
            assert(final(pubsub).electricity_sender.log@.drop_last() =~= old(
                pubsub,
            ).electricity_sender.log@);
        }
        new
    }

    /// Writes a finalized reading and publishes it to subscribers.
    pub fn put_final_electricity(
        &self,
        table: &mut Table,
        pubsub: &mut PubSub,
        input: FinalElectricityInput,
    ) -> (r: FinalElectricity)
        requires
            old(table).wf(),
        ensures
            final(table).wf(),
            r@.device == input.device@,
            r@.timestamp == input.timestamp@,
            r@.place == match input.place {
                Some(ref p) => p@,
                None => Seq::<char>::empty(),
            },
            r@.cumulative_kwh_p == match input.cumulative_kwh_p {
                Some(ref v) => v@,
                None => "0.0"@,
            },
            r@.cumulative_kwh_n == match input.cumulative_kwh_n {
                Some(ref v) => v@,
                None => "0.0"@,
            },
            spec_get(final(table)@, input.device@, "FIN#TS#"@ + input.timestamp@) == Some(
                spec_encode_final_electricity(r@),
            ),
            forall|p: Seq<char>, s: Seq<char>|
                !(p == input.device@ && s == "FIN#TS#"@ + input.timestamp@) ==> #[trigger]
                    spec_get(final(table)@, p, s) == spec_get(old(table)@, p, s),
            final(pubsub).final_electricity_sender.log@.len() == old(
                pubsub,
            ).final_electricity_sender.log@.len() + 1,
            final(pubsub).final_electricity_sender.log@.drop_last() == old(
                pubsub,
            ).final_electricity_sender.log@,
            final(pubsub).final_electricity_sender.log@.last().1@ == r@,
            final(pubsub).electricity_sender == old(pubsub).electricity_sender,
            final(pubsub).place_condition_sender == old(pubsub).place_condition_sender,
    {
        let new = final_electricity(input);
        let item = new.encode();
        let copy = new.duplicate();
        table.put(item);
        pubsub.publish_final_electricity(copy);
        proof {
            assert(final(pubsub).final_electricity_sender.log@.drop_last() =~= old(
                pubsub,
            ).final_electricity_sender.log@);
        }
        new
    }

    /// Writes an environment reading and publishes it to subscribers.
    pub fn put_place_condition(
        &self,
        table: &mut Table,
        pubsub: &mut PubSub,
        input: PlaceConditionInput,
    ) -> (r: PlaceCondition)
        requires
            old(table).wf(),
        ensures
            final(table).wf(),
            r@.device == input.device@,
            r@.timestamp == input.timestamp@,
            r@.place == match input.place {
                Some(ref p) => p@,
                None => Seq::<char>::empty(),
            },
            r@.temperature == match input.temperature {
                Some(ref v) => Some(v@),
                None => None::<Seq<char>>,
            },
            r@.humidity == input.humidity,
            r@.illuminance == input.illuminance,
            r@.motion == input.motion,
            spec_get(final(table)@, input.device@, "TS#"@ + input.timestamp@) == Some(
                spec_encode_place_condition(r@),
            ),
            forall|p: Seq<char>, s: Seq<char>|
                !(p == input.device@ && s == "TS#"@ + input.timestamp@) ==> #[trigger] spec_get(
                    final(table)@,
                    p,
                    s,
                ) == spec_get(old(table)@, p, s),
            final(pubsub).place_condition_sender.log@.len() == old(
                pubsub,
            ).place_condition_sender.log@.len() + 1,
            final(pubsub).place_condition_sender.log@.drop_last() == old(
                pubsub,
            ).place_condition_sender.log@,
            final(pubsub).place_condition_sender.log@.last().1@ == r@,
            final(pubsub).electricity_sender == old(pubsub).electricity_sender,
            final(pubsub).final_electricity_sender == old(pubsub).final_electricity_sender,
    {
        let new = place_condition(input);
        let item = new.encode();
        let copy = new.duplicate();
        table.put(item);
        pubsub.publish_place_condition(copy);
        proof {
            assert(final(pubsub).place_condition_sender.log@.drop_last() =~= old(
                pubsub,
            ).place_condition_sender.log@);
        }
        new
    }

    /// Updates an existing electricity reading attribute-by-attribute,
    /// publishes and returns the post-update record. A missing record is
    /// `ConditionFailed` and nothing is written or published — the
    /// update never silently creates the record.
    pub fn update_electricity(
        &self,
        table: &mut Table,
        pubsub: &mut PubSub,
        input: ElectricityInput,
    ) -> (r: Result<Electricity, DataError>)
        requires
            old(table).wf(),
        ensures
            final(table).wf(),
            ({
                let upd = spec_encode_electricity_input(input);
                match r {
                    Ok(e) => {
                        &&& spec_get(old(table)@, upd.pk, upd.sk) matches Some(it) && ({
                            let merged = ItemModel {
                                pk: upd.pk,
                                sk: upd.sk,
                                attrs: crate::item::merged_attrs(it.attrs, upd.attrs),
                            };
                            &&& spec_decode_electricity(merged) == Some(e@)
                            &&& spec_get(final(table)@, upd.pk, upd.sk) == Some(merged)
                        })
                        &&& forall|p: Seq<char>, s: Seq<char>|
                            !(p == upd.pk && s == upd.sk) ==> #[trigger] spec_get(
                                final(table)@,
                                p,
                                s,
                            ) == spec_get(old(table)@, p, s)
                        &&& final(pubsub).electricity_sender.log@.drop_last() == old(
                            pubsub,
                        ).electricity_sender.log@
                        &&& final(pubsub).electricity_sender.log@.len() == old(
                            pubsub,
                        ).electricity_sender.log@.len() + 1
                        &&& final(pubsub).electricity_sender.log@.last().1@ == e@
                        &&& final(pubsub).final_electricity_sender == old(
                            pubsub,
                        ).final_electricity_sender
                        &&& final(pubsub).place_condition_sender == old(
                            pubsub,
                        ).place_condition_sender
                    },
                    Err(er) => {
                        &&& *final(pubsub) == *old(pubsub)
                        &&& {
                            ||| (er == DataError::ConditionFailed && spec_get(
                                old(table)@,
                                upd.pk,
                                upd.sk,
                            ) is None && final(table)@ == old(table)@)
                            ||| (er == DataError::DecodeError && (spec_get(
                                old(table)@,
                                upd.pk,
                                upd.sk,
                            ) matches Some(it) && spec_decode_electricity(
                                ItemModel {
                                    pk: upd.pk,
                                    sk: upd.sk,
                                    attrs: crate::item::merged_attrs(it.attrs, upd.attrs),
                                },
                            ) is None))
                        }
                    },
                }
            }),
    {
        let upd = input.encode();
        match table.update_item(&upd) {
            Err(_) => Err(DataError::ConditionFailed),
            Ok(new_item) => {
                proof {
                    let m = spec_get(old(table)@, upd@.pk, upd@.sk)->Some_0;
                    assert(new_item@ =~= ItemModel {
                        pk: upd@.pk,
                        sk: upd@.sk,
                        attrs: crate::item::merged_attrs(m.attrs, upd@.attrs),
                    });
                }
                match Electricity::decode(&new_item) {
                    Ok(e) => {
                        let copy = e.duplicate();
                        pubsub.publish_electricity(copy);
                        proof {
                            assert(final(pubsub).electricity_sender.log@.drop_last() =~= old(
                                pubsub,
                            ).electricity_sender.log@);
                        }
                        Ok(e)
                    },
                    Err(_) => Err(DataError::DecodeError),
                }
            },
        }
    }

    /// Updates an existing finalized reading attribute-by-attribute,
    /// publishes and returns the post-update record; `ConditionFailed`
    /// when the record is missing, never silently creating it.
    pub fn update_final_electricity(
        &self,
        table: &mut Table,
        pubsub: &mut PubSub,
        input: FinalElectricityInput,
    ) -> (r: Result<FinalElectricity, DataError>)
        requires
            old(table).wf(),
        ensures
            final(table).wf(),
            ({
                let upd = spec_encode_final_electricity_input(input);
                match r {
                    Ok(e) => {
                        &&& spec_get(old(table)@, upd.pk, upd.sk) matches Some(it) && ({
                            let merged = ItemModel {
                                pk: upd.pk,
                                sk: upd.sk,
                                attrs: crate::item::merged_attrs(it.attrs, upd.attrs),
                            };
                            &&& spec_decode_final_electricity(merged) == Some(e@)
                            &&& spec_get(final(table)@, upd.pk, upd.sk) == Some(merged)
                        })
                        &&& forall|p: Seq<char>, s: Seq<char>|
                            !(p == upd.pk && s == upd.sk) ==> #[trigger] spec_get(
                                final(table)@,
                                p,
                                s,
                            ) == spec_get(old(table)@, p, s)
                        &&& final(pubsub).final_electricity_sender.log@.drop_last() == old(
                            pubsub,
                        ).final_electricity_sender.log@
                        &&& final(pubsub).final_electricity_sender.log@.len() == old(
                            pubsub,
                        ).final_electricity_sender.log@.len() + 1
                        &&& final(pubsub).final_electricity_sender.log@.last().1@ == e@
                        &&& final(pubsub).electricity_sender == old(pubsub).electricity_sender
                        &&& final(pubsub).place_condition_sender == old(
                            pubsub,
                        ).place_condition_sender
                    },
                    Err(er) => {
                        &&& *final(pubsub) == *old(pubsub)
                        &&& {
                            ||| (er == DataError::ConditionFailed && spec_get(
                                old(table)@,
                                upd.pk,
                                upd.sk,
                            ) is None && final(table)@ == old(table)@)
                            ||| (er == DataError::DecodeError && (spec_get(
                                old(table)@,
                                upd.pk,
                                upd.sk,
                            ) matches Some(it) && spec_decode_final_electricity(
                                ItemModel {
                                    pk: upd.pk,
                                    sk: upd.sk,
                                    attrs: crate::item::merged_attrs(it.attrs, upd.attrs),
                                },
                            ) is None))
                        }
                    },
                }
            }),
    {
        let upd = input.encode();
        match table.update_item(&upd) {
            Err(_) => Err(DataError::ConditionFailed),
            Ok(new_item) => {
                proof {
                    let m = spec_get(old(table)@, upd@.pk, upd@.sk)->Some_0;
                    assert(new_item@ =~= ItemModel {
                        pk: upd@.pk,
                        sk: upd@.sk,
                        attrs: crate::item::merged_attrs(m.attrs, upd@.attrs),
                    });
                }
                match FinalElectricity::decode(&new_item) {
                    Ok(e) => {
                        let copy = e.duplicate();
                        pubsub.publish_final_electricity(copy);
                        proof {
                            assert(final(pubsub).final_electricity_sender.log@.drop_last()
                                =~= old(pubsub).final_electricity_sender.log@);
                        }
                        Ok(e)
                    },
                    Err(_) => Err(DataError::DecodeError),
                }
            },
        }
    }

    /// Updates an existing environment reading attribute-by-attribute,
    /// publishes and returns the post-update record; `ConditionFailed`
    /// when the record is missing, never silently creating it.
    pub fn update_place_condition(
        &self,
        table: &mut Table,
        pubsub: &mut PubSub,
        input: PlaceConditionInput,
    ) -> (r: Result<PlaceCondition, DataError>)
        requires
            old(table).wf(),
        ensures
            final(table).wf(),
            ({
                let upd = spec_encode_place_condition_input(input);
                match r {
                    Ok(e) => {
                        &&& spec_get(old(table)@, upd.pk, upd.sk) matches Some(it) && ({
                            let merged = ItemModel {
                                pk: upd.pk,
                                sk: upd.sk,
                                attrs: crate::item::merged_attrs(it.attrs, upd.attrs),
                            };
                            &&& spec_decode_place_condition(merged) == Some(e@)
                            &&& spec_get(final(table)@, upd.pk, upd.sk) == Some(merged)
                        })
                        &&& forall|p: Seq<char>, s: Seq<char>|
                            !(p == upd.pk && s == upd.sk) ==> #[trigger] spec_get(
                                final(table)@,
                                p,
                                s,
                            ) == spec_get(old(table)@, p, s)
                        &&& final(pubsub).place_condition_sender.log@.drop_last() == old(
                            pubsub,
                        ).place_condition_sender.log@
                        &&& final(pubsub).place_condition_sender.log@.len() == old(
                            pubsub,
                        ).place_condition_sender.log@.len() + 1
                        &&& final(pubsub).place_condition_sender.log@.last().1@ == e@
                        &&& final(pubsub).electricity_sender == old(pubsub).electricity_sender
                        &&& final(pubsub).final_electricity_sender == old(
                            pubsub,
                        ).final_electricity_sender
                    },
                    Err(er) => {
                        &&& *final(pubsub) == *old(pubsub)
                        &&& {
                            ||| (er == DataError::ConditionFailed && spec_get(
                                old(table)@,
                                upd.pk,
                                upd.sk,
                            ) is None && final(table)@ == old(table)@)
                            ||| (er == DataError::DecodeError && (spec_get(
                                old(table)@,
                                upd.pk,
                                upd.sk,
                            ) matches Some(it) && spec_decode_place_condition(
                                ItemModel {
                                    pk: upd.pk,
                                    sk: upd.sk,
                                    attrs: crate::item::merged_attrs(it.attrs, upd.attrs),
                                },
                            ) is None))
                        }
                    },
                }
            }),
    {
        let upd = input.encode();
        match table.update_item(&upd) {
            Err(_) => Err(DataError::ConditionFailed),
            Ok(new_item) => {
                proof {
                    let m = spec_get(old(table)@, upd@.pk, upd@.sk)->Some_0;
                    assert(new_item@ =~= ItemModel {
                        pk: upd@.pk,
                        sk: upd@.sk,
                        attrs: crate::item::merged_attrs(m.attrs, upd@.attrs),
                    });
                }
                match PlaceCondition::decode(&new_item) {
                    Ok(e) => {
                        let copy = e.duplicate();
                        pubsub.publish_place_condition(copy);
                        proof {
                            assert(final(pubsub).place_condition_sender.log@.drop_last()
                                =~= old(pubsub).place_condition_sender.log@);
                        }
                        Ok(e)
                    },
                    Err(_) => Err(DataError::DecodeError),
                }
            },
        }
    }

    /// Creates a fresh API key for the authenticated principal: the key
    /// has the published shape, only its SHA-256 digest is stored, and
    /// the plain key is returned once. A malformed expiry is a
    /// `ValidationError` and nothing is written.
    pub fn create_api_key(
        &self,
        table: &mut Table,
        auth_email: &str,
        name: String,
        expires_at: Option<String>,
    ) -> (r: Result<ApiKeyCreated, DataError>)
        requires
            old(table).wf(),
        ensures
            final(table).wf(),
            match r {
                Ok(c) => {
                    &&& api_key_format_ok(c.key@)
                    &&& lower_hex(c.key@.skip(3))
                    &&& c.api_key_record@.key_hash == sha256_hex_of(c.key@)
                    &&& c.api_key_record@.sk_value == "APIKEY"@
                    &&& c.api_key_record@.user_email == auth_email@
                    &&& c.api_key_record@.name == name@
                    &&& c.api_key_record@.last_used_at is None
                    &&& c.api_key_record@.expires_at == match expires_at {
                        Some(ref e) => utc_rfc3339_of(e@),
                        None => None::<Seq<char>>,
                    }
                    &&& (expires_at matches Some(ref e) ==> utc_rfc3339_of(e@) is Some)
                    &&& spec_get(final(table)@, c.api_key_record@.key_hash, "APIKEY"@) == Some(
                        spec_encode_api_key(c.api_key_record@),
                    )
                    &&& forall|p: Seq<char>, s: Seq<char>|
                        !(p == c.api_key_record@.key_hash && s == "APIKEY"@) ==> #[trigger]
                            spec_get(final(table)@, p, s) == spec_get(old(table)@, p, s)
                },
                Err(e) => {
                    &&& e == DataError::ValidationError
                    &&& expires_at matches Some(ref x) && utc_rfc3339_of(x@) is None
                    &&& final(table)@ == old(table)@
                },
            },
    {
        let key = make_api_key();
        let key_hash = sha256_hex(key.as_str());
        let created_at = now_rfc3339();
        let mut record = ApiKey::new(auth_email.to_owned(), key_hash, name, created_at);
        match expires_at {
            Some(e) => {
                match normalize_rfc3339(e.as_str()) {
                    Ok(normalized) => {
                        record.expires_at = Some(normalized);
                    },
                    Err(_) => {
                        return Err(DataError::ValidationError);
                    },
                }
            },
            None => {},
        }
        let item = record.encode();
        table.put(item);
        Ok(ApiKeyCreated { api_key_record: record, key })
    }

    /// Deletes an API key by its decoded identifier, after verifying
    /// that the authenticated principal owns it. The identifier must
    /// name an API key; a key owned by someone else is `Unauthorized`
    /// and nothing is deleted.
    pub fn delete_api_key_of(&self, table: &mut Table, auth_email: &str, nid: &NodeId) -> (r:
        Result<bool, DataError>)
        requires
            old(table).wf(),
        ensures
            final(table).wf(),
            match r {
                Ok(b) => b == true && delete_performed(
                    old(table)@,
                    final(table)@,
                    nid.prefix@,
                    nid.pk@,
                    auth_email@,
                ),
                Err(e) => final(table)@ == old(table)@ && delete_refused(
                    old(table)@,
                    nid.prefix@,
                    nid.pk@,
                    auth_email@,
                    e,
                ),
            },
    {
        if !str_eq(nid.prefix.as_str(), "ApiKey") {
            return Err(DataError::ValidationError);
        }
        let owned_by: String = match table.get(nid.pk.as_str(), "APIKEY") {
            Ok(item) => {
                let k = ApiKey::decode(item)?;
                k.user_email
            },
            Err(_) => {
                return Err(DataError::NotFound);
            },
        };
        if !str_eq(owned_by.as_str(), auth_email) {
            return Err(DataError::Unauthorized);
        }
        table.delete(nid.pk.as_str(), "APIKEY");
        Ok(true)
    }

    /// Deletes an API key by its opaque identifier, after verifying
    /// ownership. A string the identifier codec cannot decode is a
    /// `DecodeError`.
    pub fn delete_api_key(&self, table: &mut Table, auth_email: &str, id: &str) -> (r: Result<
        bool,
        DataError,
    >)
        requires
            old(table).wf(),
        ensures
            final(table).wf(),
            match r {
                Ok(b) => {
                    &&& b == true
                    &&& exists|w: Seq<char>| #[trigger] b64_of(w) == id@
                    &&& forall|w: Seq<char>|
                        #[trigger] b64_of(w) == id@ ==> (split3_spec(w) matches Some(t)
                            && delete_performed(
                            old(table)@,
                            final(table)@,
                            t.0,
                            t.1,
                            auth_email@,
                        ))
                },
                Err(e) => final(table)@ == old(table)@ && {
                    ||| (e == DataError::DecodeError && forall|w: Seq<char>|
                        #[trigger] b64_of(w) == id@ ==> split3_spec(w) is None)
                    ||| ((exists|w: Seq<char>| #[trigger] b64_of(w) == id@) && forall|
                    w: Seq<char>|
                        #[trigger] b64_of(w) == id@ ==> (split3_spec(w) matches Some(t)
                            && delete_refused(old(table)@, t.0, t.1, auth_email@, e)))
                },
            },
    {
        let nid = NodeId::from_global_id(id)?;
        self.delete_api_key_of(table, auth_email, &nid)
    }
}

impl Subscription {
    /// A live stream of electricity readings, optionally filtered to one
    /// device: a fresh subscriber on the electricity channel, which will
    /// see only events published after this call.
    pub fn electricity_updated(&self, pubsub: &PubSub, device: Option<String>) -> (r: Subscriber)
        ensures
            r.next == pubsub.electricity_sender.log@.len(),
            r.device_filter == device,
    {
        pubsub.electricity_sender.subscribe(device)
    }

    /// A live stream of finalized readings, optionally filtered to one
    /// device.
    pub fn final_electricity_updated(&self, pubsub: &PubSub, device: Option<String>) -> (r:
        Subscriber)
        ensures
            r.next == pubsub.final_electricity_sender.log@.len(),
            r.device_filter == device,
    {
        pubsub.final_electricity_sender.subscribe(device)
    }

    /// A live stream of environment readings, optionally filtered to one
    /// device.
    pub fn place_condition_updated(&self, pubsub: &PubSub, device: Option<String>) -> (r:
        Subscriber)
        ensures
            r.next == pubsub.place_condition_sender.log@.len(),
            r.device_filter == device,
    {
        pubsub.place_condition_sender.subscribe(device)
    }
}

} // verus!
