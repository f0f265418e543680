//! The domain record types and the item codec.
//!
//! Every concrete record type declares its sort-key prefix, how its
//! partition key is derived, and the undecorated sort-key value; encoding
//! yields the table's item shape and decoding inverts it exactly,
//! rejecting items whose sort key lacks the declared prefix, whose
//! required attributes are missing or of the wrong kind, or whose number
//! attributes are not canonical decimals. Optional fields that are unset
//! are omitted, never written as explicit nulls.

use vstd::prelude::*;

use crate::errors::DataError;
use crate::item::{Attr, AttrModel, Item, ItemModel, spec_attr_get};
use crate::keys::{concat2, is_prefix_of, strip_prefix};
use crate::nums::{dec_of_nat, parse_u32, parse_i64, spec_parse_u32, spec_parse_i64, u64_to_dec,
    i64_to_dec, dec_of_int};

verus! {

/// A required string attribute: its text, or nothing when it is missing
/// or not a string.
pub open spec fn req_s(m: ItemModel, name: Seq<char>) -> Option<Seq<char>> {
    match spec_attr_get(m.attrs, name) {
        Some(AttrModel::S(s)) => Some(s),
        _ => None,
    }
}

/// An optional string attribute: absent reads as `None`; present it must
/// be a string, anything else is a decode error (the outer `None`).
pub open spec fn opt_s(m: ItemModel, name: Seq<char>) -> Option<Option<Seq<char>>> {
    match spec_attr_get(m.attrs, name) {
        None => Some(None),
        Some(AttrModel::S(s)) => Some(Some(s)),
        Some(AttrModel::N(_)) => None,
    }
}

/// An optional `u32` number attribute: absent reads as `None`; present it
/// must be a number in canonical decimal form within range, anything else
/// is a decode error (the outer `None`).
pub open spec fn opt_n_u32(m: ItemModel, name: Seq<char>) -> Option<Option<int>> {
    match spec_attr_get(m.attrs, name) {
        None => Some(None),
        Some(AttrModel::N(s)) => match spec_parse_u32(s) {
            Some(v) => Some(Some(v)),
            None => None,
        },
        Some(AttrModel::S(_)) => None,
    }
}

/// An optional `i64` number attribute, read like `opt_n_u32`.
pub open spec fn opt_n_i64(m: ItemModel, name: Seq<char>) -> Option<Option<int>> {
    match spec_attr_get(m.attrs, name) {
        None => Some(None),
        Some(AttrModel::N(s)) => match spec_parse_i64(s) {
            Some(v) => Some(Some(v)),
            None => None,
        },
        Some(AttrModel::S(_)) => None,
    }
}

/// Reads a required string attribute.
fn get_req_s(item: &Item, name: &str) -> (r: Result<String, DataError>)
    ensures
        match r {
            Ok(s) => req_s(item@, name@) == Some(s@),
            Err(e) => e == DataError::DecodeError && req_s(item@, name@) is None,
        },
{
    match item.attr_get(name) {
        Some(Attr::S(s)) => Ok(s.clone()),
        _ => Err(DataError::DecodeError),
    }
}

/// Reads an optional string attribute.
fn get_opt_s(item: &Item, name: &str) -> (r: Result<Option<String>, DataError>)
    ensures
        match r {
            Ok(Some(s)) => opt_s(item@, name@) == Some(Some(s@)),
            Ok(None) => opt_s(item@, name@) == Some(None::<Seq<char>>),
            Err(e) => e == DataError::DecodeError && opt_s(item@, name@) is None,
        },
{
    match item.attr_get(name) {
        None => Ok(None),
        Some(Attr::S(s)) => Ok(Some(s.clone())),
        Some(Attr::N(_)) => Err(DataError::DecodeError),
    }
}

/// Reads an optional `u32` number attribute.
fn get_opt_u32(item: &Item, name: &str) -> (r: Result<Option<u32>, DataError>)
    ensures
        match r {
            Ok(Some(v)) => opt_n_u32(item@, name@) == Some(Some(v as int)),
            Ok(None) => opt_n_u32(item@, name@) == Some(None::<int>),
            Err(e) => e == DataError::DecodeError && opt_n_u32(item@, name@) is None,
        },
{
    match item.attr_get(name) {
        None => Ok(None),
        Some(Attr::N(s)) => match parse_u32(s.as_str()) {
            Some(v) => Ok(Some(v)),
            None => Err(DataError::DecodeError),
        },
        Some(Attr::S(_)) => Err(DataError::DecodeError),
    }
}

/// Reads an optional `i64` number attribute.
fn get_opt_i64(item: &Item, name: &str) -> (r: Result<Option<i64>, DataError>)
    ensures
        match r {
            Ok(Some(v)) => opt_n_i64(item@, name@) == Some(Some(v as int)),
            Ok(None) => opt_n_i64(item@, name@) == Some(None::<int>),
            Err(e) => e == DataError::DecodeError && opt_n_i64(item@, name@) is None,
        },
{
    match item.attr_get(name) {
        None => Ok(None),
        Some(Attr::N(s)) => match parse_i64(s.as_str()) {
            Some(v) => Ok(Some(v)),
            None => Err(DataError::DecodeError),
        },
        Some(Attr::S(_)) => Err(DataError::DecodeError),
    }
}

/// The sort key with the type's declared prefix removed, or nothing when
/// the prefix is absent.
pub open spec fn strip_pref(s: Seq<char>, p: Seq<char>) -> Option<Seq<char>> {
    if is_prefix_of(p, s) {
        Some(s.skip(p.len() as int))
    } else {
        None
    }
}

/// A record type's place in the single table: its sort-key prefix and
/// how its key parts derive from a value.
pub trait DynamoItem {
    /// The declared sort-key prefix (empty for entity-keyed types).
    spec fn spec_sk_prefix() -> Seq<char>;

    /// The derived partition key.
    spec fn spec_pk(&self) -> Seq<char>;

    /// The undecorated sort-key value.
    spec fn spec_sk_value(&self) -> Seq<char>;

    /// The declared sort-key prefix.
    fn sk_prefix() -> (r: String)
        ensures
            r@ == Self::spec_sk_prefix(),
    ;

    /// The derived partition key.
    fn pk(&self) -> (r: String)
        ensures
            r@ == self.spec_pk(),
    ;

    /// The undecorated sort-key value.
    fn sk_value(&self) -> (r: String)
        ensures
            r@ == self.spec_sk_value(),
    ;

    /// The full sort key: the prefix followed by the value.
    fn sk(&self) -> (r: String)
        ensures
            r@ == Self::spec_sk_prefix() + self.spec_sk_value(),
    ;
}

/// A registered device.
#[derive(Debug)]
pub struct Device {
    pub pk: String,
    pub id: String,
    pub place: String,
}

/// The mathematical value of a device record.
#[verifier::ext_equal]
pub struct DeviceModel {
    pub pk: Seq<char>,
    pub id: Seq<char>,
    pub place: Seq<char>,
}

impl View for Device {
    type V = DeviceModel;

    open spec fn view(&self) -> DeviceModel {
        DeviceModel { pk: self.pk@, id: self.id@, place: self.place@ }
    }
}

/// The item a device record encodes to.
pub open spec fn spec_encode_device(d: DeviceModel) -> ItemModel {
    ItemModel { pk: d.pk, sk: d.id, attrs: seq![("place"@, AttrModel::S(d.place))] }
}

/// The device record an item decodes to, if it carries a string `place`.
pub open spec fn spec_decode_device(m: ItemModel) -> Option<DeviceModel> {
    match req_s(m, "place"@) {
        Some(place) => Some(DeviceModel { pk: m.pk, id: m.sk, place }),
        None => None,
    }
}

impl Device {
    /// A fresh device record under the fixed device partition.
    pub fn new(id: String) -> (r: Device)
        ensures
            r@.pk == "DEVICE"@,
            r@.id == id@,
            r@.place == Seq::<char>::empty(),
    {
        Device { pk: String::from_str("DEVICE"), id, place: String::new() }
    }

    /// Encodes this record as a table item.
    pub fn encode(&self) -> (r: Item)
        ensures
            r@ == spec_encode_device(self@),
    {
        let r = Item {
            pk: self.pk.clone(),
            sk: self.id.clone(),
            attrs: vec![(String::from_str("place"), Attr::S(self.place.clone()))],
        };
        proof {
            assert(r@.attrs =~= spec_encode_device(self@).attrs);
            assert(r@ =~= spec_encode_device(self@));
        }
        r
    }

    /// Decodes a table item as a device record.
    pub fn decode(item: &Item) -> (r: Result<Device, DataError>)
        ensures
            match r {
                Ok(d) => spec_decode_device(item@) == Some(d@),
                Err(e) => e == DataError::DecodeError && spec_decode_device(item@) is None,
            },
    {
        let place = get_req_s(item, "place")?;
        Ok(Device { pk: item.pk.clone(), id: item.sk.clone(), place })
    }

    /// This record's global identifier.
    pub fn id(&self) -> (r: String)
        ensures
            r@ == crate::ids::b64_of(crate::ids::joined("Device"@, "DEVICE"@, self@.id)),
    {
        crate::ids::NodeId::global_id("Device", "DEVICE", self.id.as_str())
    }
}

impl DynamoItem for Device {
    open spec fn spec_sk_prefix() -> Seq<char> {
        Seq::empty()
    }

    open spec fn spec_pk(&self) -> Seq<char> {
        self.pk@
    }

    open spec fn spec_sk_value(&self) -> Seq<char> {
        self.id@
    }

    fn sk_prefix() -> (r: String) {
        String::new()
    }

    fn pk(&self) -> (r: String) {
        self.pk.clone()
    }

    fn sk_value(&self) -> (r: String) {
        self.id.clone()
    }

    fn sk(&self) -> (r: String) {
        proof {
            assert(Self::spec_sk_prefix() + self.spec_sk_value() =~= self.id@);
        }
        self.id.clone()
    }
}

/// Encoding a device then decoding returns the record exactly.
pub proof fn lemma_device_round_trip(d: DeviceModel)
    ensures
        spec_decode_device(spec_encode_device(d)) == Some(d),
{
    let m = spec_encode_device(d);
    assert(spec_attr_get(m.attrs, "place"@) == Some(AttrModel::S(d.place)));
}

/// A named place.
#[derive(Debug)]
pub struct Place {
    pub pk: String,
    pub id: String,
    pub name: String,
}

/// The mathematical value of a place record.
#[verifier::ext_equal]
pub struct PlaceModel {
    pub pk: Seq<char>,
    pub id: Seq<char>,
    pub name: Seq<char>,
}

impl View for Place {
    type V = PlaceModel;

    open spec fn view(&self) -> PlaceModel {
        PlaceModel { pk: self.pk@, id: self.id@, name: self.name@ }
    }
}

/// The item a place record encodes to.
pub open spec fn spec_encode_place(p: PlaceModel) -> ItemModel {
    ItemModel { pk: p.pk, sk: p.id, attrs: seq![("name"@, AttrModel::S(p.name))] }
}

/// The place record an item decodes to, if it carries a string `name`.
pub open spec fn spec_decode_place(m: ItemModel) -> Option<PlaceModel> {
    match req_s(m, "name"@) {
        Some(name) => Some(PlaceModel { pk: m.pk, id: m.sk, name }),
        None => None,
    }
}

impl Place {
    /// A fresh place record under the fixed place partition.
    pub fn new(id: String) -> (r: Place)
        ensures
            r@.pk == "PLACE"@,
            r@.id == id@,
            r@.name == Seq::<char>::empty(),
    {
        Place { pk: String::from_str("PLACE"), id, name: String::new() }
    }

    /// Encodes this record as a table item.
    pub fn encode(&self) -> (r: Item)
        ensures
            r@ == spec_encode_place(self@),
    {
        let r = Item {
            pk: self.pk.clone(),
            sk: self.id.clone(),
            attrs: vec![(String::from_str("name"), Attr::S(self.name.clone()))],
        };
        proof {
            assert(r@.attrs =~= spec_encode_place(self@).attrs);
            assert(r@ =~= spec_encode_place(self@));
        }
        r
    }

    /// Decodes a table item as a place record.
    pub fn decode(item: &Item) -> (r: Result<Place, DataError>)
        ensures
            match r {
                Ok(p) => spec_decode_place(item@) == Some(p@),
                Err(e) => e == DataError::DecodeError && spec_decode_place(item@) is None,
            },
    {
        let name = get_req_s(item, "name")?;
        Ok(Place { pk: item.pk.clone(), id: item.sk.clone(), name })
    }

    /// This record's global identifier.
    pub fn id(&self) -> (r: String)
        ensures
            r@ == crate::ids::b64_of(crate::ids::joined("Place"@, "PLACE"@, self@.id)),
    {
        crate::ids::NodeId::global_id("Place", "PLACE", self.id.as_str())
    }
}

impl DynamoItem for Place {
    open spec fn spec_sk_prefix() -> Seq<char> {
        Seq::empty()
    }

    open spec fn spec_pk(&self) -> Seq<char> {
        self.pk@
    }

    open spec fn spec_sk_value(&self) -> Seq<char> {
        self.id@
    }

    fn sk_prefix() -> (r: String) {
        String::new()
    }

    fn pk(&self) -> (r: String) {
        self.pk.clone()
    }

    fn sk_value(&self) -> (r: String) {
        self.id.clone()
    }

    fn sk(&self) -> (r: String) {
        proof {
            assert(Self::spec_sk_prefix() + self.spec_sk_value() =~= self.id@);
        }
        self.id.clone()
    }
}

/// Encoding a place then decoding returns the record exactly.
pub proof fn lemma_place_round_trip(p: PlaceModel)
    ensures
        spec_decode_place(spec_encode_place(p)) == Some(p),
{
    let m = spec_encode_place(p);
    assert(spec_attr_get(m.attrs, "name"@) == Some(AttrModel::S(p.name)));
}

/// An unparsed payload captured from the device API.
#[derive(Debug)]
pub struct RawData {
    pub pk: String,
    pub id: String,
    pub body: String,
}

/// The mathematical value of a raw-data record.
#[verifier::ext_equal]
pub struct RawDataModel {
    pub pk: Seq<char>,
    pub id: Seq<char>,
    pub body: Seq<char>,
}

impl View for RawData {
    type V = RawDataModel;

    open spec fn view(&self) -> RawDataModel {
        RawDataModel { pk: self.pk@, id: self.id@, body: self.body@ }
    }
}

/// The item a raw-data record encodes to.
pub open spec fn spec_encode_raw_data(d: RawDataModel) -> ItemModel {
    ItemModel { pk: d.pk, sk: d.id, attrs: seq![("body"@, AttrModel::S(d.body))] }
}

/// The raw-data record an item decodes to, if it carries a string `body`.
pub open spec fn spec_decode_raw_data(m: ItemModel) -> Option<RawDataModel> {
    match req_s(m, "body"@) {
        Some(body) => Some(RawDataModel { pk: m.pk, id: m.sk, body }),
        None => None,
    }
}

impl RawData {
    /// A fresh raw-data record under the fixed raw-data partition.
    pub fn new(id: String) -> (r: RawData)
        ensures
            r@.pk == "RAW_DATA"@,
            r@.id == id@,
            r@.body == Seq::<char>::empty(),
    {
        RawData { pk: String::from_str("RAW_DATA"), id, body: String::new() }
    }

    /// Encodes this record as a table item.
    pub fn encode(&self) -> (r: Item)
        ensures
            r@ == spec_encode_raw_data(self@),
    {
        let r = Item {
            pk: self.pk.clone(),
            sk: self.id.clone(),
            attrs: vec![(String::from_str("body"), Attr::S(self.body.clone()))],
        };
        proof {
            assert(r@.attrs =~= spec_encode_raw_data(self@).attrs);
            assert(r@ =~= spec_encode_raw_data(self@));
        }
        r
    }

    /// Decodes a table item as a raw-data record.
    pub fn decode(item: &Item) -> (r: Result<RawData, DataError>)
        ensures
            match r {
                Ok(d) => spec_decode_raw_data(item@) == Some(d@),
                Err(e) => e == DataError::DecodeError && spec_decode_raw_data(item@) is None,
            },
    {
        let body = get_req_s(item, "body")?;
        Ok(RawData { pk: item.pk.clone(), id: item.sk.clone(), body })
    }
}

/// Encoding a raw-data record then decoding returns it exactly.
pub proof fn lemma_raw_data_round_trip(d: RawDataModel)
    ensures
        spec_decode_raw_data(spec_encode_raw_data(d)) == Some(d),
{
    let m = spec_encode_raw_data(d);
    assert(spec_attr_get(m.attrs, "body"@) == Some(AttrModel::S(d.body)));
}

/// A user allowed to authenticate, keyed by email.
#[derive(Debug)]
pub struct User {
    pub email: String,
    pub user_type: String,
}

/// The mathematical value of a user record.
#[verifier::ext_equal]
pub struct UserModel {
    pub email: Seq<char>,
    pub user_type: Seq<char>,
}

impl View for User {
    type V = UserModel;

    open spec fn view(&self) -> UserModel {
        UserModel { email: self.email@, user_type: self.user_type@ }
    }
}

/// The item a user record encodes to: both fields are key parts.
pub open spec fn spec_encode_user(u: UserModel) -> ItemModel {
    ItemModel { pk: u.email, sk: u.user_type, attrs: Seq::empty() }
}

/// The user record an item decodes to.
pub open spec fn spec_decode_user(m: ItemModel) -> Option<UserModel> {
    Some(UserModel { email: m.pk, user_type: m.sk })
}

impl User {
    /// Encodes this record as a table item.
    pub fn encode(&self) -> (r: Item)
        ensures
            r@ == spec_encode_user(self@),
    {
        let r = Item { pk: self.email.clone(), sk: self.user_type.clone(), attrs: Vec::new() };
        proof {
            assert(r@.attrs =~= spec_encode_user(self@).attrs);
            assert(r@ =~= spec_encode_user(self@));
        }
        r
    }

    /// Decodes a table item as a user record.
    pub fn decode(item: &Item) -> (r: Result<User, DataError>)
        ensures
            match r {
                Ok(u) => spec_decode_user(item@) == Some(u@),
                Err(_) => false,
            },
    {
        Ok(User { email: item.pk.clone(), user_type: item.sk.clone() })
    }
}

impl DynamoItem for User {
    open spec fn spec_sk_prefix() -> Seq<char> {
        Seq::empty()
    }

    open spec fn spec_pk(&self) -> Seq<char> {
        self.email@
    }

    open spec fn spec_sk_value(&self) -> Seq<char> {
        "USER"@
    }

    fn sk_prefix() -> (r: String) {
        String::new()
    }

    fn pk(&self) -> (r: String) {
        self.email.clone()
    }

    fn sk_value(&self) -> (r: String) {
        String::from_str("USER")
    }

    fn sk(&self) -> (r: String) {
        proof {
            assert(Self::spec_sk_prefix() + self.spec_sk_value() =~= "USER"@);
        }
        String::from_str("USER")
    }
}

/// Encoding a user then decoding returns the record exactly.
pub proof fn lemma_user_round_trip(u: UserModel)
    ensures
        spec_decode_user(spec_encode_user(u)) == Some(u),
{
}

/// An instantaneous electricity reading from a device's smart meter.
#[derive(Debug)]
pub struct Electricity {
    pub device: String,
    pub timestamp: String,
    pub place: String,
    pub cumulative_kwh_p: Option<String>,
    pub cumulative_kwh_n: Option<String>,
    pub current_w: Option<u32>,
}

/// The mathematical value of an electricity reading.
#[verifier::ext_equal]
pub struct ElectricityModel {
    pub device: Seq<char>,
    pub timestamp: Seq<char>,
    pub place: Seq<char>,
    pub cumulative_kwh_p: Option<Seq<char>>,
    pub cumulative_kwh_n: Option<Seq<char>>,
    pub current_w: Option<u32>,
}

impl View for Electricity {
    type V = ElectricityModel;

    open spec fn view(&self) -> ElectricityModel {
        ElectricityModel {
            device: self.device@,
            timestamp: self.timestamp@,
            place: self.place@,
            cumulative_kwh_p: match self.cumulative_kwh_p {
                Some(ref s) => Some(s@),
                None => None,
            },
            cumulative_kwh_n: match self.cumulative_kwh_n {
                Some(ref s) => Some(s@),
                None => None,
            },
            current_w: self.current_w,
        }
    }
}

/// The attributes an electricity reading encodes to: the place always,
/// the optional fields only when set.
pub open spec fn spec_electricity_attrs(e: ElectricityModel) -> Seq<(Seq<char>, AttrModel)> {
    let a0 = seq![("place"@, AttrModel::S(e.place))];
    let a1 = match e.cumulative_kwh_p {
        Some(v) => a0.push(("cumulative_kwh_p"@, AttrModel::S(v))),
        None => a0,
    };
    let a2 = match e.cumulative_kwh_n {
        Some(v) => a1.push(("cumulative_kwh_n"@, AttrModel::S(v))),
        None => a1,
    };
    match e.current_w {
        Some(w) => a2.push(("current_w"@, AttrModel::N(dec_of_nat(w as nat)))),
        None => a2,
    }
}

/// The item an electricity reading encodes to.
pub open spec fn spec_encode_electricity(e: ElectricityModel) -> ItemModel {
    ItemModel { pk: e.device, sk: "TS#"@ + e.timestamp, attrs: spec_electricity_attrs(e) }
}

/// The electricity reading an item decodes to, if its sort key carries
/// the type's prefix and its attributes are well-shaped; a missing
/// `place` reads as the empty string.
pub open spec fn spec_decode_electricity(m: ItemModel) -> Option<ElectricityModel> {
    match strip_pref(m.sk, "TS#"@) {
        None => None,
        Some(ts) => match opt_s(m, "place"@) {
            None => None,
            Some(place_opt) => match opt_s(m, "cumulative_kwh_p"@) {
                None => None,
                Some(kwh_p) => match opt_s(m, "cumulative_kwh_n"@) {
                    None => None,
                    Some(kwh_n) => match opt_n_u32(m, "current_w"@) {
                        None => None,
                        Some(w) => Some(
                            ElectricityModel {
                                device: m.pk,
                                timestamp: ts,
                                place: match place_opt {
                                    Some(p) => p,
                                    None => Seq::empty(),
                                },
                                cumulative_kwh_p: kwh_p,
                                cumulative_kwh_n: kwh_n,
                                current_w: match w {
                                    Some(v) => Some(v as u32),
                                    None => None,
                                },
                            },
                        ),
                    },
                },
            },
        },
    }
}

impl Electricity {
    /// Encodes this reading as a table item.
    pub fn encode(&self) -> (r: Item)
        ensures
            r@ == spec_encode_electricity(self@),
    {
        let mut attrs: Vec<(String, Attr)> = Vec::new();
        attrs.push((String::from_str("place"), Attr::S(self.place.clone())));
        proof {
            assert(crate::item::attrs_model(attrs@) =~= seq![("place"@, AttrModel::S(
                self@.place,
            ))]);
        }
        if let Some(v) = &self.cumulative_kwh_p {
            let entry = (String::from_str("cumulative_kwh_p"), Attr::S(v.clone()));
            proof {
                crate::item::lemma_attrs_model_push(attrs@, entry);
            }
            attrs.push(entry);
        }
        if let Some(v) = &self.cumulative_kwh_n {
            let entry = (String::from_str("cumulative_kwh_n"), Attr::S(v.clone()));
            proof {
                crate::item::lemma_attrs_model_push(attrs@, entry);
            }
            attrs.push(entry);
        }
        if let Some(w) = self.current_w {
            let entry = (String::from_str("current_w"), Attr::N(u64_to_dec(w as u64)));
            proof {
                crate::item::lemma_attrs_model_push(attrs@, entry);
            }
            attrs.push(entry);
        }
        let r = Item {
            pk: self.device.clone(),
            sk: concat2("TS#", self.timestamp.as_str()),
            attrs,
        };
        proof {
            assert(r@.attrs =~= spec_electricity_attrs(self@));
            assert(r@ =~= spec_encode_electricity(self@));
        }
        r
    }

    /// Decodes a table item as an electricity reading.
    pub fn decode(item: &Item) -> (r: Result<Electricity, DataError>)
        ensures
            match r {
                Ok(e) => spec_decode_electricity(item@) == Some(e@),
                Err(e) => e == DataError::DecodeError && spec_decode_electricity(item@) is None,
            },
    {
        let timestamp = match strip_prefix(item.sk.as_str(), "TS#") {
            Some(t) => t,
            None => {
                return Err(DataError::DecodeError);
            },
        };
        let place = match get_opt_s(item, "place")? {
            Some(p) => p,
            None => String::new(),
        };
        let cumulative_kwh_p = get_opt_s(item, "cumulative_kwh_p")?;
        let cumulative_kwh_n = get_opt_s(item, "cumulative_kwh_n")?;
        let current_w = get_opt_u32(item, "current_w")?;
        proof {
            reveal_strlit("TS#");
            assert(item@.sk =~= "TS#"@ + timestamp@);
            assert(strip_pref(item@.sk, "TS#"@) == Some(timestamp@)) by {
                assert(("TS#"@).len() == 3);
                assert(item@.sk.skip(3) =~= timestamp@);
            }
        }
        Ok(
            Electricity {
                device: item.pk.clone(),
                timestamp,
                place,
                cumulative_kwh_p,
                cumulative_kwh_n,
                current_w,
            },
        )
    }

    /// This reading's global identifier.
    pub fn id(&self) -> (r: String)
        ensures
            r@ == crate::ids::b64_of(
                crate::ids::joined("Electricity"@, self@.device, "TS#"@ + self@.timestamp),
            ),
    {
        let sk = concat2("TS#", self.timestamp.as_str());
        crate::ids::NodeId::global_id("Electricity", self.device.as_str(), sk.as_str())
    }
}

impl DynamoItem for Electricity {
    open spec fn spec_sk_prefix() -> Seq<char> {
        "TS#"@
    }

    open spec fn spec_pk(&self) -> Seq<char> {
        self.device@
    }

    open spec fn spec_sk_value(&self) -> Seq<char> {
        self.timestamp@
    }

    fn sk_prefix() -> (r: String) {
        String::from_str("TS#")
    }

    fn pk(&self) -> (r: String) {
        self.device.clone()
    }

    fn sk_value(&self) -> (r: String) {
        self.timestamp.clone()
    }

    fn sk(&self) -> (r: String) {
        concat2("TS#", self.timestamp.as_str())
    }
}

/// The attribute names of the reading types are pairwise distinct.
proof fn lemma_names_distinct()
    ensures
        "place"@ != "cumulative_kwh_p"@,
        "place"@ != "cumulative_kwh_n"@,
        "place"@ != "current_w"@,
        "cumulative_kwh_p"@ != "cumulative_kwh_n"@,
        "cumulative_kwh_p"@ != "current_w"@,
        "cumulative_kwh_n"@ != "current_w"@,
        "place"@ != "temperature"@,
        "place"@ != "humidity"@,
        "place"@ != "illuminance"@,
        "place"@ != "motion"@,
        "temperature"@ != "humidity"@,
        "temperature"@ != "illuminance"@,
        "temperature"@ != "motion"@,
        "humidity"@ != "illuminance"@,
        "humidity"@ != "motion"@,
        "illuminance"@ != "motion"@,
        "current_w"@ != "temperature"@,
{
    reveal_strlit("place");
    reveal_strlit("cumulative_kwh_p");
    reveal_strlit("cumulative_kwh_n");
    reveal_strlit("current_w");
    reveal_strlit("temperature");
    reveal_strlit("humidity");
    reveal_strlit("illuminance");
    reveal_strlit("motion");
    assert(("place"@).len() == 5);
    assert(("cumulative_kwh_p"@).len() == 16);
    assert(("cumulative_kwh_n"@).len() == 16);
    assert(("current_w"@).len() == 9);
    assert(("temperature"@).len() == 11);
    assert(("humidity"@).len() == 8);
    assert(("illuminance"@).len() == 11);
    assert(("motion"@).len() == 6);
    assert(("cumulative_kwh_p"@)[15] == 'p');
    assert(("cumulative_kwh_n"@)[15] == 'n');
    assert(("temperature"@)[0] == 't');
    assert(("illuminance"@)[0] == 'i');
}

/// Encoding an electricity reading then decoding returns it exactly.
pub proof fn lemma_electricity_round_trip(e: ElectricityModel)
    ensures
        spec_decode_electricity(spec_encode_electricity(e)) == Some(e),
{
    lemma_names_distinct();
    reveal_strlit("TS#");
    let m = spec_encode_electricity(e);
    assert(strip_pref(m.sk, "TS#"@) == Some(e.timestamp)) by {
        assert(("TS#"@).len() == 3);
        assert(m.sk.subrange(0, 3) =~= "TS#"@);
        assert(m.sk.skip(3) =~= e.timestamp);
    }
    let a0 = seq![("place"@, AttrModel::S(e.place))];
    crate::item::lemma_attr_get_single(("place"@, AttrModel::S(e.place)), "place"@);
    crate::item::lemma_attr_get_single(("place"@, AttrModel::S(e.place)), "cumulative_kwh_p"@);
    crate::item::lemma_attr_get_single(("place"@, AttrModel::S(e.place)), "cumulative_kwh_n"@);
    crate::item::lemma_attr_get_single(("place"@, AttrModel::S(e.place)), "current_w"@);
    let a1 = match e.cumulative_kwh_p {
        Some(v) => a0.push(("cumulative_kwh_p"@, AttrModel::S(v))),
        None => a0,
    };
    let a2 = match e.cumulative_kwh_n {
        Some(v) => a1.push(("cumulative_kwh_n"@, AttrModel::S(v))),
        None => a1,
    };
    assert(spec_attr_get(a0, "place"@) == Some(AttrModel::S(e.place)));
    assert(spec_attr_get(a0, "cumulative_kwh_p"@) is None);
    assert(spec_attr_get(a0, "cumulative_kwh_n"@) is None);
    assert(spec_attr_get(a0, "current_w"@) is None);
    if e.cumulative_kwh_p is Some {
        crate::item::lemma_attr_get_push(a0, ("cumulative_kwh_p"@, AttrModel::S(
            e.cumulative_kwh_p->Some_0,
        )), "place"@);
        crate::item::lemma_attr_get_push(a0, ("cumulative_kwh_p"@, AttrModel::S(
            e.cumulative_kwh_p->Some_0,
        )), "cumulative_kwh_p"@);
        crate::item::lemma_attr_get_push(a0, ("cumulative_kwh_p"@, AttrModel::S(
            e.cumulative_kwh_p->Some_0,
        )), "cumulative_kwh_n"@);
        crate::item::lemma_attr_get_push(a0, ("cumulative_kwh_p"@, AttrModel::S(
            e.cumulative_kwh_p->Some_0,
        )), "current_w"@);
    }
    if e.cumulative_kwh_n is Some {
        crate::item::lemma_attr_get_push(a1, ("cumulative_kwh_n"@, AttrModel::S(
            e.cumulative_kwh_n->Some_0,
        )), "place"@);
        crate::item::lemma_attr_get_push(a1, ("cumulative_kwh_n"@, AttrModel::S(
            e.cumulative_kwh_n->Some_0,
        )), "cumulative_kwh_p"@);
        crate::item::lemma_attr_get_push(a1, ("cumulative_kwh_n"@, AttrModel::S(
            e.cumulative_kwh_n->Some_0,
        )), "cumulative_kwh_n"@);
        crate::item::lemma_attr_get_push(a1, ("cumulative_kwh_n"@, AttrModel::S(
            e.cumulative_kwh_n->Some_0,
        )), "current_w"@);
    }
    if e.current_w is Some {
        let w = e.current_w->Some_0;
        crate::item::lemma_attr_get_push(a2, ("current_w"@, AttrModel::N(dec_of_nat(w as nat))),
            "place"@);
        crate::item::lemma_attr_get_push(a2, ("current_w"@, AttrModel::N(dec_of_nat(w as nat))),
            "cumulative_kwh_p"@);
        crate::item::lemma_attr_get_push(a2, ("current_w"@, AttrModel::N(dec_of_nat(w as nat))),
            "cumulative_kwh_n"@);
        crate::item::lemma_attr_get_push(a2, ("current_w"@, AttrModel::N(dec_of_nat(w as nat))),
            "current_w"@);
        crate::nums::lemma_dec_of_nat_canonical(w as nat);
        assert(spec_parse_u32(dec_of_nat(w as nat)) == Some(w as int));
    }
}

/// A finalized (monthly) electricity reading.
#[derive(Debug)]
pub struct FinalElectricity {
    pub device: String,
    pub timestamp: String,
    pub place: String,
    pub cumulative_kwh_p: String,
    pub cumulative_kwh_n: String,
}

/// The mathematical value of a finalized electricity reading.
#[verifier::ext_equal]
pub struct FinalElectricityModel {
    pub device: Seq<char>,
    pub timestamp: Seq<char>,
    pub place: Seq<char>,
    pub cumulative_kwh_p: Seq<char>,
    pub cumulative_kwh_n: Seq<char>,
}

impl View for FinalElectricity {
    type V = FinalElectricityModel;

    open spec fn view(&self) -> FinalElectricityModel {
        FinalElectricityModel {
            device: self.device@,
            timestamp: self.timestamp@,
            place: self.place@,
            cumulative_kwh_p: self.cumulative_kwh_p@,
            cumulative_kwh_n: self.cumulative_kwh_n@,
        }
    }
}

/// The item a finalized reading encodes to.
pub open spec fn spec_encode_final_electricity(e: FinalElectricityModel) -> ItemModel {
    ItemModel {
        pk: e.device,
        sk: "FIN#TS#"@ + e.timestamp,
        attrs: seq![("place"@, AttrModel::S(e.place))].push(
            ("cumulative_kwh_p"@, AttrModel::S(e.cumulative_kwh_p)),
        ).push(("cumulative_kwh_n"@, AttrModel::S(e.cumulative_kwh_n))),
    }
}

/// The finalized reading an item decodes to, if its sort key carries the
/// type's prefix and both totals are present as strings; a missing
/// `place` reads as the empty string.
pub open spec fn spec_decode_final_electricity(m: ItemModel) -> Option<FinalElectricityModel> {
    match strip_pref(m.sk, "FIN#TS#"@) {
        None => None,
        Some(ts) => match opt_s(m, "place"@) {
            None => None,
            Some(place_opt) => match req_s(m, "cumulative_kwh_p"@) {
                None => None,
                Some(kwh_p) => match req_s(m, "cumulative_kwh_n"@) {
                    None => None,
                    Some(kwh_n) => Some(
                        FinalElectricityModel {
                            device: m.pk,
                            timestamp: ts,
                            place: match place_opt {
                                Some(p) => p,
                                None => Seq::empty(),
                            },
                            cumulative_kwh_p: kwh_p,
                            cumulative_kwh_n: kwh_n,
                        },
                    ),
                },
            },
        },
    }
}

impl FinalElectricity {
    /// Encodes this reading as a table item.
    pub fn encode(&self) -> (r: Item)
        ensures
            r@ == spec_encode_final_electricity(self@),
    {
        let mut attrs: Vec<(String, Attr)> = Vec::new();
        attrs.push((String::from_str("place"), Attr::S(self.place.clone())));
        proof {
            assert(crate::item::attrs_model(attrs@) =~= seq![("place"@, AttrModel::S(
                self@.place,
            ))]);
        }
        let entry_p = (String::from_str("cumulative_kwh_p"), Attr::S(self.cumulative_kwh_p.clone()));
        proof {
            crate::item::lemma_attrs_model_push(attrs@, entry_p);
        }
        attrs.push(entry_p);
        let entry_n = (String::from_str("cumulative_kwh_n"), Attr::S(self.cumulative_kwh_n.clone()));
        proof {
            crate::item::lemma_attrs_model_push(attrs@, entry_n);
        }
        attrs.push(entry_n);
        let r = Item {
            pk: self.device.clone(),
            sk: concat2("FIN#TS#", self.timestamp.as_str()),
            attrs,
        };
        proof {
            assert(r@.attrs =~= spec_encode_final_electricity(self@).attrs);
            assert(r@ =~= spec_encode_final_electricity(self@));
        }
        r
    }

    /// Decodes a table item as a finalized reading.
    pub fn decode(item: &Item) -> (r: Result<FinalElectricity, DataError>)
        ensures
            match r {
                Ok(e) => spec_decode_final_electricity(item@) == Some(e@),
                Err(e) => e == DataError::DecodeError && spec_decode_final_electricity(item@)
                    is None,
            },
    {
        let timestamp = match strip_prefix(item.sk.as_str(), "FIN#TS#") {
            Some(t) => t,
            None => {
                return Err(DataError::DecodeError);
            },
        };
        let place = match get_opt_s(item, "place")? {
            Some(p) => p,
            None => String::new(),
        };
        let cumulative_kwh_p = get_req_s(item, "cumulative_kwh_p")?;
        let cumulative_kwh_n = get_req_s(item, "cumulative_kwh_n")?;
        proof {
            reveal_strlit("FIN#TS#");
            assert(item@.sk =~= "FIN#TS#"@ + timestamp@);
            assert(strip_pref(item@.sk, "FIN#TS#"@) == Some(timestamp@)) by {
                assert(("FIN#TS#"@).len() == 7);
                assert(item@.sk.skip(7) =~= timestamp@);
            }
        }
        Ok(
            FinalElectricity {
                device: item.pk.clone(),
                timestamp,
                place,
                cumulative_kwh_p,
                cumulative_kwh_n,
            },
        )
    }

    /// This reading's global identifier.
    pub fn id(&self) -> (r: String)
        ensures
            r@ == crate::ids::b64_of(
                crate::ids::joined(
                    "FinalElectricity"@,
                    self@.device,
                    "FIN#TS#"@ + self@.timestamp,
                ),
            ),
    {
        let sk = concat2("FIN#TS#", self.timestamp.as_str());
        crate::ids::NodeId::global_id("FinalElectricity", self.device.as_str(), sk.as_str())
    }
}

impl DynamoItem for FinalElectricity {
    open spec fn spec_sk_prefix() -> Seq<char> {
        "FIN#TS#"@
    }

    open spec fn spec_pk(&self) -> Seq<char> {
        self.device@
    }

    open spec fn spec_sk_value(&self) -> Seq<char> {
        self.timestamp@
    }

    fn sk_prefix() -> (r: String) {
        String::from_str("FIN#TS#")
    }

    fn pk(&self) -> (r: String) {
        self.device.clone()
    }

    fn sk_value(&self) -> (r: String) {
        self.timestamp.clone()
    }

    fn sk(&self) -> (r: String) {
        concat2("FIN#TS#", self.timestamp.as_str())
    }
}

/// Encoding a finalized reading then decoding returns it exactly.
pub proof fn lemma_final_electricity_round_trip(e: FinalElectricityModel)
    ensures
        spec_decode_final_electricity(spec_encode_final_electricity(e)) == Some(e),
{
    lemma_names_distinct();
    reveal_strlit("FIN#TS#");
    let m = spec_encode_final_electricity(e);
    assert(strip_pref(m.sk, "FIN#TS#"@) == Some(e.timestamp)) by {
        assert(("FIN#TS#"@).len() == 7);
        assert(m.sk.subrange(0, 7) =~= "FIN#TS#"@);
        assert(m.sk.skip(7) =~= e.timestamp);
    }
    let x0 = ("place"@, AttrModel::S(e.place));
    let x1 = ("cumulative_kwh_p"@, AttrModel::S(e.cumulative_kwh_p));
    let x2 = ("cumulative_kwh_n"@, AttrModel::S(e.cumulative_kwh_n));
    let a0 = seq![x0];
    crate::item::lemma_attr_get_single(x0, "place"@);
    crate::item::lemma_attr_get_single(x0, "cumulative_kwh_p"@);
    crate::item::lemma_attr_get_single(x0, "cumulative_kwh_n"@);
    crate::item::lemma_attr_get_push(a0, x1, "place"@);
    crate::item::lemma_attr_get_push(a0, x1, "cumulative_kwh_p"@);
    crate::item::lemma_attr_get_push(a0, x1, "cumulative_kwh_n"@);
    crate::item::lemma_attr_get_push(a0.push(x1), x2, "place"@);
    crate::item::lemma_attr_get_push(a0.push(x1), x2, "cumulative_kwh_p"@);
    crate::item::lemma_attr_get_push(a0.push(x1), x2, "cumulative_kwh_n"@);
}

/// An environment reading from a device's sensors.
#[derive(Debug)]
pub struct PlaceCondition {
    pub device: String,
    pub timestamp: String,
    pub place: String,
    pub temperature: Option<String>,
    pub humidity: Option<i64>,
    pub illuminance: Option<i64>,
    pub motion: Option<i64>,
}

/// The mathematical value of an environment reading.
#[verifier::ext_equal]
pub struct PlaceConditionModel {
    pub device: Seq<char>,
    pub timestamp: Seq<char>,
    pub place: Seq<char>,
    pub temperature: Option<Seq<char>>,
    pub humidity: Option<i64>,
    pub illuminance: Option<i64>,
    pub motion: Option<i64>,
}

impl View for PlaceCondition {
    type V = PlaceConditionModel;

    open spec fn view(&self) -> PlaceConditionModel {
        PlaceConditionModel {
            device: self.device@,
            timestamp: self.timestamp@,
            place: self.place@,
            temperature: match self.temperature {
                Some(ref s) => Some(s@),
                None => None,
            },
            humidity: self.humidity,
            illuminance: self.illuminance,
            motion: self.motion,
        }
    }
}

/// The attributes an environment reading encodes to: the place always,
/// the sensor fields only when set.
pub open spec fn spec_place_condition_attrs(p: PlaceConditionModel) -> Seq<
    (Seq<char>, AttrModel),
> {
    let a0 = seq![("place"@, AttrModel::S(p.place))];
    let a1 = match p.temperature {
        Some(v) => a0.push(("temperature"@, AttrModel::S(v))),
        None => a0,
    };
    let a2 = match p.humidity {
        Some(v) => a1.push(("humidity"@, AttrModel::N(dec_of_int(v as int)))),
        None => a1,
    };
    let a3 = match p.illuminance {
        Some(v) => a2.push(("illuminance"@, AttrModel::N(dec_of_int(v as int)))),
        None => a2,
    };
    match p.motion {
        Some(v) => a3.push(("motion"@, AttrModel::N(dec_of_int(v as int)))),
        None => a3,
    }
}

/// The item an environment reading encodes to.
pub open spec fn spec_encode_place_condition(p: PlaceConditionModel) -> ItemModel {
    ItemModel { pk: p.device, sk: "TS#"@ + p.timestamp, attrs: spec_place_condition_attrs(p) }
}

/// The environment reading an item decodes to, if its sort key carries
/// the type's prefix, `place` is present as a string, and the sensor
/// attributes are well-shaped.
pub open spec fn spec_decode_place_condition(m: ItemModel) -> Option<PlaceConditionModel> {
    match strip_pref(m.sk, "TS#"@) {
        None => None,
        Some(ts) => match req_s(m, "place"@) {
            None => None,
            Some(place) => match opt_s(m, "temperature"@) {
                None => None,
                Some(temperature) => match opt_n_i64(m, "humidity"@) {
                    None => None,
                    Some(humidity) => match opt_n_i64(m, "illuminance"@) {
                        None => None,
                        Some(illuminance) => match opt_n_i64(m, "motion"@) {
                            None => None,
                            Some(motion) => Some(
                                PlaceConditionModel {
                                    device: m.pk,
                                    timestamp: ts,
                                    place,
                                    temperature,
                                    humidity: match humidity {
                                        Some(v) => Some(v as i64),
                                        None => None,
                                    },
                                    illuminance: match illuminance {
                                        Some(v) => Some(v as i64),
                                        None => None,
                                    },
                                    motion: match motion {
                                        Some(v) => Some(v as i64),
                                        None => None,
                                    },
                                },
                            ),
                        },
                    },
                },
            },
        },
    }
}

impl PlaceCondition {
    /// Encodes this reading as a table item.
    pub fn encode(&self) -> (r: Item)
        ensures
            r@ == spec_encode_place_condition(self@),
    {
        let mut attrs: Vec<(String, Attr)> = Vec::new();
        attrs.push((String::from_str("place"), Attr::S(self.place.clone())));
        proof {
            assert(crate::item::attrs_model(attrs@) =~= seq![("place"@, AttrModel::S(
                self@.place,
            ))]);
        }
        if let Some(v) = &self.temperature {
            let entry = (String::from_str("temperature"), Attr::S(v.clone()));
            proof {
                crate::item::lemma_attrs_model_push(attrs@, entry);
            }
            attrs.push(entry);
        }
        if let Some(v) = self.humidity {
            let entry = (String::from_str("humidity"), Attr::N(i64_to_dec(v)));
            proof {
                crate::item::lemma_attrs_model_push(attrs@, entry);
            }
            attrs.push(entry);
        }
        if let Some(v) = self.illuminance {
            let entry = (String::from_str("illuminance"), Attr::N(i64_to_dec(v)));
            proof {
                crate::item::lemma_attrs_model_push(attrs@, entry);
            }
            attrs.push(entry);
        }
        if let Some(v) = self.motion {
            let entry = (String::from_str("motion"), Attr::N(i64_to_dec(v)));
            proof {
                crate::item::lemma_attrs_model_push(attrs@, entry);
            }
            attrs.push(entry);
        }
        let r = Item {
            pk: self.device.clone(),
            sk: concat2("TS#", self.timestamp.as_str()),
            attrs,
        };
        proof {
            assert(r@.attrs =~= spec_place_condition_attrs(self@));
            assert(r@ =~= spec_encode_place_condition(self@));
        }
        r
    }

    /// Decodes a table item as an environment reading.
    pub fn decode(item: &Item) -> (r: Result<PlaceCondition, DataError>)
        ensures
            match r {
                Ok(p) => spec_decode_place_condition(item@) == Some(p@),
                Err(e) => e == DataError::DecodeError && spec_decode_place_condition(item@)
                    is None,
            },
    {
        let timestamp = match strip_prefix(item.sk.as_str(), "TS#") {
            Some(t) => t,
            None => {
                return Err(DataError::DecodeError);
            },
        };
        let place = get_req_s(item, "place")?;
        let temperature = get_opt_s(item, "temperature")?;
        let humidity = get_opt_i64(item, "humidity")?;
        let illuminance = get_opt_i64(item, "illuminance")?;
        let motion = get_opt_i64(item, "motion")?;
        proof {
            reveal_strlit("TS#");
            assert(item@.sk =~= "TS#"@ + timestamp@);
            assert(strip_pref(item@.sk, "TS#"@) == Some(timestamp@)) by {
                assert(("TS#"@).len() == 3);
                assert(item@.sk.skip(3) =~= timestamp@);
            }
        }
        Ok(
            PlaceCondition {
                device: item.pk.clone(),
                timestamp,
                place,
                temperature,
                humidity,
                illuminance,
                motion,
            },
        )
    }

    /// This reading's global identifier.
    pub fn id(&self) -> (r: String)
        ensures
            r@ == crate::ids::b64_of(
                crate::ids::joined("PlaceCondition"@, self@.device, "TS#"@ + self@.timestamp),
            ),
    {
        let sk = concat2("TS#", self.timestamp.as_str());
        crate::ids::NodeId::global_id("PlaceCondition", self.device.as_str(), sk.as_str())
    }
}

impl DynamoItem for PlaceCondition {
    open spec fn spec_sk_prefix() -> Seq<char> {
        "TS#"@
    }

    open spec fn spec_pk(&self) -> Seq<char> {
        self.device@
    }

    open spec fn spec_sk_value(&self) -> Seq<char> {
        self.timestamp@
    }

    fn sk_prefix() -> (r: String) {
        String::from_str("TS#")
    }

    fn pk(&self) -> (r: String) {
        self.device.clone()
    }

    fn sk_value(&self) -> (r: String) {
        self.timestamp.clone()
    }

    fn sk(&self) -> (r: String) {
        concat2("TS#", self.timestamp.as_str())
    }
}

/// Encoding an environment reading then decoding returns it exactly.
pub proof fn lemma_place_condition_round_trip(p: PlaceConditionModel)
    ensures
        spec_decode_place_condition(spec_encode_place_condition(p)) == Some(p),
{
    lemma_names_distinct();
    reveal_strlit("TS#");
    let m = spec_encode_place_condition(p);
    assert(strip_pref(m.sk, "TS#"@) == Some(p.timestamp)) by {
        assert(("TS#"@).len() == 3);
        assert(m.sk.subrange(0, 3) =~= "TS#"@);
        assert(m.sk.skip(3) =~= p.timestamp);
    }
    let x0 = ("place"@, AttrModel::S(p.place));
    let a0 = seq![x0];
    let a1 = match p.temperature {
        Some(v) => a0.push(("temperature"@, AttrModel::S(v))),
        None => a0,
    };
    let a2 = match p.humidity {
        Some(v) => a1.push(("humidity"@, AttrModel::N(dec_of_int(v as int)))),
        None => a1,
    };
    let a3 = match p.illuminance {
        Some(v) => a2.push(("illuminance"@, AttrModel::N(dec_of_int(v as int)))),
        None => a2,
    };
    crate::item::lemma_attr_get_single(x0, "place"@);
    crate::item::lemma_attr_get_single(x0, "temperature"@);
    crate::item::lemma_attr_get_single(x0, "humidity"@);
    crate::item::lemma_attr_get_single(x0, "illuminance"@);
    crate::item::lemma_attr_get_single(x0, "motion"@);
    if p.temperature is Some {
        let y = ("temperature"@, AttrModel::S(p.temperature->Some_0));
        crate::item::lemma_attr_get_push(a0, y, "place"@);
        crate::item::lemma_attr_get_push(a0, y, "temperature"@);
        crate::item::lemma_attr_get_push(a0, y, "humidity"@);
        crate::item::lemma_attr_get_push(a0, y, "illuminance"@);
        crate::item::lemma_attr_get_push(a0, y, "motion"@);
    }
    if p.humidity is Some {
        let v = p.humidity->Some_0;
        let y = ("humidity"@, AttrModel::N(dec_of_int(v as int)));
        crate::item::lemma_attr_get_push(a1, y, "place"@);
        crate::item::lemma_attr_get_push(a1, y, "temperature"@);
        crate::item::lemma_attr_get_push(a1, y, "humidity"@);
        crate::item::lemma_attr_get_push(a1, y, "illuminance"@);
        crate::item::lemma_attr_get_push(a1, y, "motion"@);
        lemma_parse_i64_of_dec(v);
    }
    if p.illuminance is Some {
        let v = p.illuminance->Some_0;
        let y = ("illuminance"@, AttrModel::N(dec_of_int(v as int)));
        crate::item::lemma_attr_get_push(a2, y, "place"@);
        crate::item::lemma_attr_get_push(a2, y, "temperature"@);
        crate::item::lemma_attr_get_push(a2, y, "humidity"@);
        crate::item::lemma_attr_get_push(a2, y, "illuminance"@);
        crate::item::lemma_attr_get_push(a2, y, "motion"@);
        lemma_parse_i64_of_dec(v);
    }
    if p.motion is Some {
        let v = p.motion->Some_0;
        let y = ("motion"@, AttrModel::N(dec_of_int(v as int)));
        crate::item::lemma_attr_get_push(a3, y, "place"@);
        crate::item::lemma_attr_get_push(a3, y, "temperature"@);
        crate::item::lemma_attr_get_push(a3, y, "humidity"@);
        crate::item::lemma_attr_get_push(a3, y, "illuminance"@);
        crate::item::lemma_attr_get_push(a3, y, "motion"@);
        lemma_parse_i64_of_dec(v);
    }
}

/// An API key record, stored only as the key's SHA-256 digest.
#[derive(Debug)]
pub struct ApiKey {
    pub key_hash: String,
    pub sk_value: String,
    pub user_email: String,
    pub name: String,
    pub created_at: String,
    pub last_used_at: Option<String>,
    pub expires_at: Option<String>,
}

/// The mathematical value of an API key record.
#[verifier::ext_equal]
pub struct ApiKeyModel {
    pub key_hash: Seq<char>,
    pub sk_value: Seq<char>,
    pub user_email: Seq<char>,
    pub name: Seq<char>,
    pub created_at: Seq<char>,
    pub last_used_at: Option<Seq<char>>,
    pub expires_at: Option<Seq<char>>,
}

impl View for ApiKey {
    type V = ApiKeyModel;

    open spec fn view(&self) -> ApiKeyModel {
        ApiKeyModel {
            key_hash: self.key_hash@,
            sk_value: self.sk_value@,
            user_email: self.user_email@,
            name: self.name@,
            created_at: self.created_at@,
            last_used_at: match self.last_used_at {
                Some(ref s) => Some(s@),
                None => None,
            },
            expires_at: match self.expires_at {
                Some(ref s) => Some(s@),
                None => None,
            },
        }
    }
}

/// The attributes an API key record encodes to: owner, name and creation
/// time always, the two timestamps only when set.
pub open spec fn spec_api_key_attrs(k: ApiKeyModel) -> Seq<(Seq<char>, AttrModel)> {
    let a0 = seq![("user_email"@, AttrModel::S(k.user_email))].push(
        ("name"@, AttrModel::S(k.name)),
    ).push(("created_at"@, AttrModel::S(k.created_at)));
    let a1 = match k.last_used_at {
        Some(v) => a0.push(("last_used_at"@, AttrModel::S(v))),
        None => a0,
    };
    match k.expires_at {
        Some(v) => a1.push(("expires_at"@, AttrModel::S(v))),
        None => a1,
    }
}

/// The item an API key record encodes to.
pub open spec fn spec_encode_api_key(k: ApiKeyModel) -> ItemModel {
    ItemModel { pk: k.key_hash, sk: k.sk_value, attrs: spec_api_key_attrs(k) }
}

/// The API key record an item decodes to, if owner, name and creation
/// time are present as strings.
pub open spec fn spec_decode_api_key(m: ItemModel) -> Option<ApiKeyModel> {
    match req_s(m, "user_email"@) {
        None => None,
        Some(user_email) => match req_s(m, "name"@) {
            None => None,
            Some(name) => match req_s(m, "created_at"@) {
                None => None,
                Some(created_at) => match opt_s(m, "last_used_at"@) {
                    None => None,
                    Some(last_used_at) => match opt_s(m, "expires_at"@) {
                        None => None,
                        Some(expires_at) => Some(
                            ApiKeyModel {
                                key_hash: m.pk,
                                sk_value: m.sk,
                                user_email,
                                name,
                                created_at,
                                last_used_at,
                                expires_at,
                            },
                        ),
                    },
                },
            },
        },
    }
}

impl ApiKey {
    /// A fresh API key record for an owner, named, created now, with no
    /// last use and no expiry.
    pub fn new(email: String, key_hash: String, name: String, created_at: String) -> (r: ApiKey)
        ensures
            r@.key_hash == key_hash@,
            r@.sk_value == "APIKEY"@,
            r@.user_email == email@,
            r@.name == name@,
            r@.created_at == created_at@,
            r@.last_used_at is None,
            r@.expires_at is None,
    {
        ApiKey {
            key_hash,
            sk_value: String::from_str("APIKEY"),
            user_email: email,
            name,
            created_at,
            last_used_at: None,
            expires_at: None,
        }
    }

    /// Encodes this record as a table item.
    pub fn encode(&self) -> (r: Item)
        ensures
            r@ == spec_encode_api_key(self@),
    {
        let mut attrs: Vec<(String, Attr)> = Vec::new();
        attrs.push((String::from_str("user_email"), Attr::S(self.user_email.clone())));
        proof {
            assert(crate::item::attrs_model(attrs@) =~= seq![("user_email"@, AttrModel::S(
                self@.user_email,
            ))]);
        }
        let entry_name = (String::from_str("name"), Attr::S(self.name.clone()));
        proof {
            crate::item::lemma_attrs_model_push(attrs@, entry_name);
        }
        attrs.push(entry_name);
        let entry_created = (String::from_str("created_at"), Attr::S(self.created_at.clone()));
        proof {
            crate::item::lemma_attrs_model_push(attrs@, entry_created);
        }
        attrs.push(entry_created);
        if let Some(v) = &self.last_used_at {
            let entry = (String::from_str("last_used_at"), Attr::S(v.clone()));
            proof {
                crate::item::lemma_attrs_model_push(attrs@, entry);
            }
            attrs.push(entry);
        }
        if let Some(v) = &self.expires_at {
            let entry = (String::from_str("expires_at"), Attr::S(v.clone()));
            proof {
                crate::item::lemma_attrs_model_push(attrs@, entry);
            }
            attrs.push(entry);
        }
        let r = Item { pk: self.key_hash.clone(), sk: self.sk_value.clone(), attrs };
        proof {
            assert(r@.attrs =~= spec_api_key_attrs(self@));
            assert(r@ =~= spec_encode_api_key(self@));
        }
        r
    }

    /// Decodes a table item as an API key record.
    pub fn decode(item: &Item) -> (r: Result<ApiKey, DataError>)
        ensures
            match r {
                Ok(k) => spec_decode_api_key(item@) == Some(k@),
                Err(e) => e == DataError::DecodeError && spec_decode_api_key(item@) is None,
            },
    {
        let user_email = get_req_s(item, "user_email")?;
        let name = get_req_s(item, "name")?;
        let created_at = get_req_s(item, "created_at")?;
        let last_used_at = get_opt_s(item, "last_used_at")?;
        let expires_at = get_opt_s(item, "expires_at")?;
        Ok(
            ApiKey {
                key_hash: item.pk.clone(),
                sk_value: item.sk.clone(),
                user_email,
                name,
                created_at,
                last_used_at,
                expires_at,
            },
        )
    }

    /// This record's global identifier.
    pub fn id(&self) -> (r: String)
        ensures
            r@ == crate::ids::b64_of(
                crate::ids::joined("ApiKey"@, self@.key_hash, "APIKEY"@),
            ),
    {
        crate::ids::NodeId::global_id("ApiKey", self.key_hash.as_str(), "APIKEY")
    }

    /// Whether the key's expiry, if it has one, lies in the past. Reads
    /// the clock; a key without an expiry never expires.
    pub fn is_expired(&self) -> (r: bool)
        ensures
            self.expires_at is None ==> r == false,
    {
        match &self.expires_at {
            None => false,
            Some(t) => crate::times::timestamp_in_past(t.as_str()),
        }
    }
}

impl DynamoItem for ApiKey {
    open spec fn spec_sk_prefix() -> Seq<char> {
        Seq::empty()
    }

    open spec fn spec_pk(&self) -> Seq<char> {
        self.key_hash@
    }

    open spec fn spec_sk_value(&self) -> Seq<char> {
        "APIKEY"@
    }

    fn sk_prefix() -> (r: String) {
        String::new()
    }

    fn pk(&self) -> (r: String) {
        self.key_hash.clone()
    }

    fn sk_value(&self) -> (r: String) {
        String::from_str("APIKEY")
    }

    fn sk(&self) -> (r: String) {
        proof {
            assert(Self::spec_sk_prefix() + self.spec_sk_value() =~= "APIKEY"@);
        }
        String::from_str("APIKEY")
    }
}

/// The attribute names of the API key record are pairwise distinct.
proof fn lemma_api_key_names_distinct()
    ensures
        "user_email"@ != "name"@,
        "user_email"@ != "created_at"@,
        "user_email"@ != "last_used_at"@,
        "user_email"@ != "expires_at"@,
        "name"@ != "created_at"@,
        "name"@ != "last_used_at"@,
        "name"@ != "expires_at"@,
        "created_at"@ != "last_used_at"@,
        "created_at"@ != "expires_at"@,
        "last_used_at"@ != "expires_at"@,
{
    reveal_strlit("user_email");
    reveal_strlit("name");
    reveal_strlit("created_at");
    reveal_strlit("last_used_at");
    reveal_strlit("expires_at");
    assert(("user_email"@).len() == 10);
    assert(("name"@).len() == 4);
    assert(("created_at"@).len() == 10);
    assert(("last_used_at"@).len() == 12);
    assert(("expires_at"@).len() == 10);
    assert(("user_email"@)[0] == 'u');
    assert(("created_at"@)[0] == 'c');
    assert(("expires_at"@)[0] == 'e');
}

/// Encoding an API key record then decoding returns it exactly.
pub proof fn lemma_api_key_round_trip(k: ApiKeyModel)
    ensures
        spec_decode_api_key(spec_encode_api_key(k)) == Some(k),
{
    lemma_api_key_names_distinct();
    let x0 = ("user_email"@, AttrModel::S(k.user_email));
    let x1 = ("name"@, AttrModel::S(k.name));
    let x2 = ("created_at"@, AttrModel::S(k.created_at));
    let b0 = seq![x0];
    let b1 = b0.push(x1);
    let a0 = b1.push(x2);
    let a1 = match k.last_used_at {
        Some(v) => a0.push(("last_used_at"@, AttrModel::S(v))),
        None => a0,
    };
    crate::item::lemma_attr_get_single(x0, "user_email"@);
    crate::item::lemma_attr_get_single(x0, "name"@);
    crate::item::lemma_attr_get_single(x0, "created_at"@);
    crate::item::lemma_attr_get_single(x0, "last_used_at"@);
    crate::item::lemma_attr_get_single(x0, "expires_at"@);
    crate::item::lemma_attr_get_push(b0, x1, "user_email"@);
    crate::item::lemma_attr_get_push(b0, x1, "name"@);
    crate::item::lemma_attr_get_push(b0, x1, "created_at"@);
    crate::item::lemma_attr_get_push(b0, x1, "last_used_at"@);
    crate::item::lemma_attr_get_push(b0, x1, "expires_at"@);
    crate::item::lemma_attr_get_push(b1, x2, "user_email"@);
    crate::item::lemma_attr_get_push(b1, x2, "name"@);
    crate::item::lemma_attr_get_push(b1, x2, "created_at"@);
    crate::item::lemma_attr_get_push(b1, x2, "last_used_at"@);
    crate::item::lemma_attr_get_push(b1, x2, "expires_at"@);
    if k.last_used_at is Some {
        let y = ("last_used_at"@, AttrModel::S(k.last_used_at->Some_0));
        crate::item::lemma_attr_get_push(a0, y, "user_email"@);
        crate::item::lemma_attr_get_push(a0, y, "name"@);
        crate::item::lemma_attr_get_push(a0, y, "created_at"@);
        crate::item::lemma_attr_get_push(a0, y, "last_used_at"@);
        crate::item::lemma_attr_get_push(a0, y, "expires_at"@);
    }
    if k.expires_at is Some {
        let y = ("expires_at"@, AttrModel::S(k.expires_at->Some_0));
        crate::item::lemma_attr_get_push(a1, y, "user_email"@);
        crate::item::lemma_attr_get_push(a1, y, "name"@);
        crate::item::lemma_attr_get_push(a1, y, "created_at"@);
        crate::item::lemma_attr_get_push(a1, y, "last_used_at"@);
        crate::item::lemma_attr_get_push(a1, y, "expires_at"@);
    }
}

/// Client input for writing an electricity reading; unset fields are
/// omitted from the encoded item.
#[derive(Debug)]
pub struct ElectricityInput {
    pub device: String,
    pub timestamp: String,
    pub place: Option<String>,
    pub cumulative_kwh_p: Option<String>,
    pub cumulative_kwh_n: Option<String>,
    pub current_w: Option<u32>,
}

/// Client input for writing a finalized reading.
#[derive(Debug)]
pub struct FinalElectricityInput {
    pub device: String,
    pub timestamp: String,
    pub place: Option<String>,
    pub cumulative_kwh_p: Option<String>,
    pub cumulative_kwh_n: Option<String>,
}

/// Client input for writing an environment reading.
#[derive(Debug)]
pub struct PlaceConditionInput {
    pub device: String,
    pub timestamp: String,
    pub place: Option<String>,
    pub temperature: Option<String>,
    pub humidity: Option<i64>,
    pub illuminance: Option<i64>,
    pub motion: Option<i64>,
}

/// The item an electricity input encodes to: only the fields the client
/// set are written.
pub open spec fn spec_encode_electricity_input(i: ElectricityInput) -> ItemModel {
    let a0 = Seq::<(Seq<char>, AttrModel)>::empty();
    let a1 = match i.place {
        Some(ref v) => a0.push(("place"@, AttrModel::S(v@))),
        None => a0,
    };
    let a2 = match i.cumulative_kwh_p {
        Some(ref v) => a1.push(("cumulative_kwh_p"@, AttrModel::S(v@))),
        None => a1,
    };
    let a3 = match i.cumulative_kwh_n {
        Some(ref v) => a2.push(("cumulative_kwh_n"@, AttrModel::S(v@))),
        None => a2,
    };
    let a4 = match i.current_w {
        Some(w) => a3.push(("current_w"@, AttrModel::N(dec_of_nat(w as nat)))),
        None => a3,
    };
    ItemModel { pk: i.device@, sk: "TS#"@ + i.timestamp@, attrs: a4 }
}

impl ElectricityInput {
    /// Encodes this input as a table item for an attribute-level update.
    pub fn encode(&self) -> (r: Item)
        ensures
            r@ == spec_encode_electricity_input(*self),
    {
        let mut attrs: Vec<(String, Attr)> = Vec::new();
        proof {
            assert(crate::item::attrs_model(attrs@) =~= Seq::<(Seq<char>, AttrModel)>::empty());
        }
        if let Some(v) = &self.place {
            let entry = (String::from_str("place"), Attr::S(v.clone()));
            proof {
                crate::item::lemma_attrs_model_push(attrs@, entry);
            }
            attrs.push(entry);
        }
        if let Some(v) = &self.cumulative_kwh_p {
            let entry = (String::from_str("cumulative_kwh_p"), Attr::S(v.clone()));
            proof {
                crate::item::lemma_attrs_model_push(attrs@, entry);
            }
            attrs.push(entry);
        }
        if let Some(v) = &self.cumulative_kwh_n {
            let entry = (String::from_str("cumulative_kwh_n"), Attr::S(v.clone()));
            proof {
                crate::item::lemma_attrs_model_push(attrs@, entry);
            }
            attrs.push(entry);
        }
        if let Some(w) = self.current_w {
            let entry = (String::from_str("current_w"), Attr::N(u64_to_dec(w as u64)));
            proof {
                crate::item::lemma_attrs_model_push(attrs@, entry);
            }
            attrs.push(entry);
        }
        let r = Item {
            pk: self.device.clone(),
            sk: concat2("TS#", self.timestamp.as_str()),
            attrs,
        };
        proof {
            assert(r@.attrs =~= spec_encode_electricity_input(*self).attrs);
            assert(r@ =~= spec_encode_electricity_input(*self));
        }
        r
    }
}

/// The item a finalized-reading input encodes to: only the fields the
/// client set are written.
pub open spec fn spec_encode_final_electricity_input(i: FinalElectricityInput) -> ItemModel {
    let a0 = Seq::<(Seq<char>, AttrModel)>::empty();
    let a1 = match i.place {
        Some(ref v) => a0.push(("place"@, AttrModel::S(v@))),
        None => a0,
    };
    let a2 = match i.cumulative_kwh_p {
        Some(ref v) => a1.push(("cumulative_kwh_p"@, AttrModel::S(v@))),
        None => a1,
    };
    let a3 = match i.cumulative_kwh_n {
        Some(ref v) => a2.push(("cumulative_kwh_n"@, AttrModel::S(v@))),
        None => a2,
    };
    ItemModel { pk: i.device@, sk: "FIN#TS#"@ + i.timestamp@, attrs: a3 }
}

impl FinalElectricityInput {
    /// Encodes this input as a table item for an attribute-level update.
    pub fn encode(&self) -> (r: Item)
        ensures
            r@ == spec_encode_final_electricity_input(*self),
    {
        let mut attrs: Vec<(String, Attr)> = Vec::new();
        proof {
            assert(crate::item::attrs_model(attrs@) =~= Seq::<(Seq<char>, AttrModel)>::empty());
        }
        if let Some(v) = &self.place {
            let entry = (String::from_str("place"), Attr::S(v.clone()));
            proof {
                crate::item::lemma_attrs_model_push(attrs@, entry);
            }
            attrs.push(entry);
        }
        if let Some(v) = &self.cumulative_kwh_p {
            let entry = (String::from_str("cumulative_kwh_p"), Attr::S(v.clone()));
            proof {
                crate::item::lemma_attrs_model_push(attrs@, entry);
            }
            attrs.push(entry);
        }
        if let Some(v) = &self.cumulative_kwh_n {
            let entry = (String::from_str("cumulative_kwh_n"), Attr::S(v.clone()));
            proof {
                crate::item::lemma_attrs_model_push(attrs@, entry);
            }
            attrs.push(entry);
        }
        let r = Item {
            pk: self.device.clone(),
            sk: concat2("FIN#TS#", self.timestamp.as_str()),
            attrs,
        };
        proof {
            assert(r@.attrs =~= spec_encode_final_electricity_input(*self).attrs);
            assert(r@ =~= spec_encode_final_electricity_input(*self));
        }
        r
    }
}

/// The item an environment-reading input encodes to: only the fields the
/// client set are written.
pub open spec fn spec_encode_place_condition_input(i: PlaceConditionInput) -> ItemModel {
    let a0 = Seq::<(Seq<char>, AttrModel)>::empty();
    let a1 = match i.place {
        Some(ref v) => a0.push(("place"@, AttrModel::S(v@))),
        None => a0,
    };
    let a2 = match i.temperature {
        Some(ref v) => a1.push(("temperature"@, AttrModel::S(v@))),
        None => a1,
    };
    let a3 = match i.humidity {
        Some(v) => a2.push(("humidity"@, AttrModel::N(dec_of_int(v as int)))),
        None => a2,
    };
    let a4 = match i.illuminance {
        Some(v) => a3.push(("illuminance"@, AttrModel::N(dec_of_int(v as int)))),
        None => a3,
    };
    let a5 = match i.motion {
        Some(v) => a4.push(("motion"@, AttrModel::N(dec_of_int(v as int)))),
        None => a4,
    };
    ItemModel { pk: i.device@, sk: "TS#"@ + i.timestamp@, attrs: a5 }
}

impl PlaceConditionInput {
    /// Encodes this input as a table item for an attribute-level update.
    pub fn encode(&self) -> (r: Item)
        ensures
            r@ == spec_encode_place_condition_input(*self),
    {
        let mut attrs: Vec<(String, Attr)> = Vec::new();
        proof {
            assert(crate::item::attrs_model(attrs@) =~= Seq::<(Seq<char>, AttrModel)>::empty());
        }
        if let Some(v) = &self.place {
            let entry = (String::from_str("place"), Attr::S(v.clone()));
            proof {
                crate::item::lemma_attrs_model_push(attrs@, entry);
            }
            attrs.push(entry);
        }
        if let Some(v) = &self.temperature {
            let entry = (String::from_str("temperature"), Attr::S(v.clone()));
            proof {
                crate::item::lemma_attrs_model_push(attrs@, entry);
            }
            attrs.push(entry);
        }
        if let Some(v) = self.humidity {
            let entry = (String::from_str("humidity"), Attr::N(i64_to_dec(v)));
            proof {
                crate::item::lemma_attrs_model_push(attrs@, entry);
            }
            attrs.push(entry);
        }
        if let Some(v) = self.illuminance {
            let entry = (String::from_str("illuminance"), Attr::N(i64_to_dec(v)));
            proof {
                crate::item::lemma_attrs_model_push(attrs@, entry);
            }
            attrs.push(entry);
        }
        if let Some(v) = self.motion {
            let entry = (String::from_str("motion"), Attr::N(i64_to_dec(v)));
            proof {
                crate::item::lemma_attrs_model_push(attrs@, entry);
            }
            attrs.push(entry);
        }
        let r = Item {
            pk: self.device.clone(),
            sk: concat2("TS#", self.timestamp.as_str()),
            attrs,
        };
        proof {
            assert(r@.attrs =~= spec_encode_place_condition_input(*self).attrs);
            assert(r@ =~= spec_encode_place_condition_input(*self));
        }
        r
    }
}

impl Electricity {
    /// A copy of this reading with the same value.
    pub fn duplicate(&self) -> (r: Electricity)
        ensures
            r@ == self@,
    {
        Electricity {
            device: self.device.clone(),
            timestamp: self.timestamp.clone(),
            place: self.place.clone(),
            cumulative_kwh_p: match &self.cumulative_kwh_p {
                Some(v) => Some(v.clone()),
                None => None,
            },
            cumulative_kwh_n: match &self.cumulative_kwh_n {
                Some(v) => Some(v.clone()),
                None => None,
            },
            current_w: self.current_w,
        }
    }
}

impl FinalElectricity {
    /// A copy of this reading with the same value.
    pub fn duplicate(&self) -> (r: FinalElectricity)
        ensures
            r@ == self@,
    {
        FinalElectricity {
            device: self.device.clone(),
            timestamp: self.timestamp.clone(),
            place: self.place.clone(),
            cumulative_kwh_p: self.cumulative_kwh_p.clone(),
            cumulative_kwh_n: self.cumulative_kwh_n.clone(),
        }
    }
}

impl PlaceCondition {
    /// A copy of this reading with the same value.
    pub fn duplicate(&self) -> (r: PlaceCondition)
        ensures
            r@ == self@,
    {
        PlaceCondition {
            device: self.device.clone(),
            timestamp: self.timestamp.clone(),
            place: self.place.clone(),
            temperature: match &self.temperature {
                Some(v) => Some(v.clone()),
                None => None,
            },
            humidity: self.humidity,
            illuminance: self.illuminance,
            motion: self.motion,
        }
    }
}

/// The electricity reading a client input denotes: a missing place reads
/// as the empty string.
pub fn electricity(input: ElectricityInput) -> (r: Electricity)
    ensures
        r@.device == input.device@,
        r@.timestamp == input.timestamp@,
        r@.place == match input.place {
            Some(p) => p@,
            None => Seq::<char>::empty(),
        },
        r@.cumulative_kwh_p == match input.cumulative_kwh_p {
            Some(ref s) => Some(s@),
            None => None::<Seq<char>>,
        },
        r@.cumulative_kwh_n == match input.cumulative_kwh_n {
            Some(ref s) => Some(s@),
            None => None::<Seq<char>>,
        },
        r@.current_w == input.current_w,
{
    Electricity {
        device: input.device,
        timestamp: input.timestamp,
        place: match input.place {
            Some(p) => p,
            None => String::new(),
        },
        cumulative_kwh_p: input.cumulative_kwh_p,
        cumulative_kwh_n: input.cumulative_kwh_n,
        current_w: input.current_w,
    }
}

/// The finalized reading a client input denotes: a missing place reads
/// as the empty string and missing totals as zero.
pub fn final_electricity(input: FinalElectricityInput) -> (r: FinalElectricity)
    ensures
        r@.device == input.device@,
        r@.timestamp == input.timestamp@,
        r@.place == match input.place {
            Some(p) => p@,
            None => Seq::<char>::empty(),
        },
        r@.cumulative_kwh_p == match input.cumulative_kwh_p {
            Some(ref s) => s@,
            None => "0.0"@,
        },
        r@.cumulative_kwh_n == match input.cumulative_kwh_n {
            Some(ref s) => s@,
            None => "0.0"@,
        },
{
    FinalElectricity {
        device: input.device,
        timestamp: input.timestamp,
        place: match input.place {
            Some(p) => p,
            None => String::new(),
        },
        cumulative_kwh_p: match input.cumulative_kwh_p {
            Some(s) => s,
            None => String::from_str("0.0"),
        },
        cumulative_kwh_n: match input.cumulative_kwh_n {
            Some(s) => s,
            None => String::from_str("0.0"),
        },
    }
}

/// The environment reading a client input denotes: a missing place reads
/// as the empty string.
pub fn place_condition(input: PlaceConditionInput) -> (r: PlaceCondition)
    ensures
        r@.device == input.device@,
        r@.timestamp == input.timestamp@,
        r@.place == match input.place {
            Some(p) => p@,
            None => Seq::<char>::empty(),
        },
        r@.temperature == match input.temperature {
            Some(ref s) => Some(s@),
            None => None::<Seq<char>>,
        },
        r@.humidity == input.humidity,
        r@.illuminance == input.illuminance,
        r@.motion == input.motion,
{
    PlaceCondition {
        device: input.device,
        timestamp: input.timestamp,
        place: match input.place {
            Some(p) => p,
            None => String::new(),
        },
        temperature: input.temperature,
        humidity: input.humidity,
        illuminance: input.illuminance,
        motion: input.motion,
    }
}

/// The canonical encoding of an `i64` parses back to it.
proof fn lemma_parse_i64_of_dec(v: i64)
    ensures
        spec_parse_i64(dec_of_int(v as int)) == Some(v as int),
{
    if v >= 0 {
        crate::nums::lemma_dec_of_nat_canonical(v as nat);
        assert(crate::nums::is_digit_char(dec_of_int(v as int)[0]));
    } else {
        let s = dec_of_int(v as int);
        crate::nums::lemma_dec_of_nat_canonical((-(v as int)) as nat);
        assert(s[0] == '-');
        assert(s.drop_first() =~= crate::nums::dec_of_nat((-(v as int)) as nat));
    }
}

} // verus!
