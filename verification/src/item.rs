//! The table's native item representation.
//!
//! An item is a partition key, a sort key, and a list of named non-key
//! attributes. Attributes carry either a string or a decimal-number value,
//! the two shapes this table stores; optional record fields that are unset
//! are omitted rather than written as explicit nulls.

use vstd::prelude::*;

use crate::errors::DataError;

verus! {

/// A native attribute value: a string or a number (kept in its canonical
/// decimal-string form, as the backend wire format does).
#[derive(Debug)]
pub enum Attr {
    S(String),
    N(String),
}

/// The mathematical value of an attribute.
#[verifier::ext_equal]
pub enum AttrModel {
    S(Seq<char>),
    N(Seq<char>),
}

impl View for Attr {
    type V = AttrModel;

    open spec fn view(&self) -> AttrModel {
        match self {
            Attr::S(s) => AttrModel::S(s@),
            Attr::N(s) => AttrModel::N(s@),
        }
    }
}

impl Attr {
    /// A copy of this attribute with the same value.
    pub fn duplicate(&self) -> (r: Attr)
        ensures
            r@ == self@,
    {
        match self {
            Attr::S(s) => Attr::S(s.clone()),
            Attr::N(s) => Attr::N(s.clone()),
        }
    }
}

/// The mathematical value of a named attribute list.
pub open spec fn attrs_model(attrs: Seq<(String, Attr)>) -> Seq<(Seq<char>, AttrModel)> {
    attrs.map_values(|p: (String, Attr)| (p.0@, p.1@))
}

/// Appending a pair to an attribute list appends its value to the model.
pub proof fn lemma_attrs_model_push(s: Seq<(String, Attr)>, x: (String, Attr))
    ensures
        attrs_model(s.push(x)) =~= attrs_model(s).push((x.0@, x.1@)),
{
    assert forall|j: int| 0 <= j < s.len() + 1 implies #[trigger] attrs_model(s.push(x))[j]
        == attrs_model(s).push((x.0@, x.1@))[j] by {
        if j < s.len() {
            assert(attrs_model(s)[j] == (s[j].0@, s[j].1@));
        }
    }
}

/// Looking a name up in a list extended at the back finds the existing
/// entry first, the appended one only when the name was absent.
pub proof fn lemma_attr_get_push(
    attrs: Seq<(Seq<char>, AttrModel)>,
    x: (Seq<char>, AttrModel),
    name: Seq<char>,
)
    ensures
        spec_attr_get(attrs.push(x), name) == if spec_attr_get(attrs, name) is Some {
            spec_attr_get(attrs, name)
        } else if x.0 == name {
            Some(x.1)
        } else {
            None::<AttrModel>
        },
    decreases attrs.len(),
{
    if attrs.len() == 0 {
        assert(attrs.push(x)[0] == x);
        assert(attrs.push(x).drop_first() =~= Seq::<(Seq<char>, AttrModel)>::empty());
    } else {
        assert(attrs.push(x)[0] == attrs[0]);
        assert(attrs.push(x).drop_first() =~= attrs.drop_first().push(x));
        lemma_attr_get_push(attrs.drop_first(), x, name);
    }
}

/// Looking a name up in a one-entry list.
pub proof fn lemma_attr_get_single(x: (Seq<char>, AttrModel), name: Seq<char>)
    ensures
        spec_attr_get(seq![x], name) == if x.0 == name {
            Some(x.1)
        } else {
            None::<AttrModel>
        },
{
    assert(seq![x].len() == 1);
    assert(seq![x][0] == x);
    assert(seq![x].drop_first() =~= Seq::<(Seq<char>, AttrModel)>::empty());
    assert(spec_attr_get(Seq::<(Seq<char>, AttrModel)>::empty(), name) is None);
}

/// The value of the first attribute with the given name, if any.
pub open spec fn spec_attr_get(attrs: Seq<(Seq<char>, AttrModel)>, name: Seq<char>) -> Option<
    AttrModel,
>
    decreases attrs.len(),
{
    if attrs.len() == 0 {
        None
    } else if attrs[0].0 == name {
        Some(attrs[0].1)
    } else {
        spec_attr_get(attrs.drop_first(), name)
    }
}

/// A stored item: the two-part primary key plus the non-key attributes.
#[derive(Debug)]
pub struct Item {
    pub pk: String,
    pub sk: String,
    pub attrs: Vec<(String, Attr)>,
}

/// The mathematical value of an item.
#[verifier::ext_equal]
pub struct ItemModel {
    pub pk: Seq<char>,
    pub sk: Seq<char>,
    pub attrs: Seq<(Seq<char>, AttrModel)>,
}

impl View for Item {
    type V = ItemModel;

    open spec fn view(&self) -> ItemModel {
        ItemModel { pk: self.pk@, sk: self.sk@, attrs: attrs_model(self.attrs@) }
    }
}

impl Item {
    /// The value of this item's first attribute with the given name.
    pub open spec fn spec_attr(&self, name: Seq<char>) -> Option<AttrModel> {
        spec_attr_get(self@.attrs, name)
    }

    /// Looks up the first attribute with the given name.
    pub fn attr_get<'a>(&'a self, name: &str) -> (r: Option<&'a Attr>)
        ensures
            match r {
                Some(a) => self.spec_attr(name@) == Some(a@),
                None => self.spec_attr(name@) is None,
            },
    {
        let n = self.attrs.len();
        let mut i: usize = 0;
        proof {
            assert(self@.attrs.skip(0) =~= self@.attrs);
        }
        while i < n
            invariant
                n == self.attrs.len(),
                i <= n,
                spec_attr_get(self@.attrs, name@) == spec_attr_get(
                    self@.attrs.skip(i as int),
                    name@,
                ),
            decreases n - i,
        {
            proof {
                assert(self@.attrs[i as int] == (self.attrs@[i as int].0@,
                    self.attrs@[i as int].1@));
                assert(self@.attrs.skip(i as int)[0] == self@.attrs[i as int]);
            }
            if crate::keys::str_eq(self.attrs[i].0.as_str(), name) {
                return Some(&self.attrs[i].1);
            }
            proof {
                assert(self@.attrs.skip(i as int).drop_first() =~= self@.attrs.skip(i as int + 1));
                assert(spec_attr_get(self@.attrs.skip(i as int), name@) == spec_attr_get(
                    self@.attrs.skip(i as int + 1),
                    name@,
                ));
            }
            i = i + 1;
        }
        proof {
            assert(self@.attrs.skip(i as int).len() == 0);
        }
        None
    }

    /// A copy of this item with the same value.
    pub fn duplicate(&self) -> (r: Item)
        ensures
            r@ == self@,
    {
        let mut attrs: Vec<(String, Attr)> = Vec::new();
        let n = self.attrs.len();
        let mut i: usize = 0;
        while i < n
            invariant
                n == self.attrs.len(),
                i <= n,
                attrs_model(attrs@) =~= attrs_model(self.attrs@).subrange(0, i as int),
            decreases n - i,
        {
            let name_c = self.attrs[i].0.clone();
            let val_c = self.attrs[i].1.duplicate();
            proof {
                lemma_attrs_model_push(attrs@, (name_c, val_c));
            }
            attrs.push((name_c, val_c));
            proof {
                assert(attrs_model(self.attrs@)[i as int] == (self.attrs@[i as int].0@,
                    self.attrs@[i as int].1@));
                assert(attrs_model(attrs@) =~= attrs_model(self.attrs@).subrange(0, i as int + 1));
            }
            i = i + 1;
        }
        let r = Item { pk: self.pk.clone(), sk: self.sk.clone(), attrs };
        proof {
            assert(attrs_model(self.attrs@).subrange(0, n as int) =~= attrs_model(self.attrs@));
            assert(r@ =~= self@);
        }
        r
    }
}

/// The base attribute list with values overwritten wherever the update
/// list carries the same name.
pub open spec fn replace_attrs(
    base: Seq<(Seq<char>, AttrModel)>,
    upd: Seq<(Seq<char>, AttrModel)>,
) -> Seq<(Seq<char>, AttrModel)> {
    base.map_values(
        |p: (Seq<char>, AttrModel)|
            match spec_attr_get(upd, p.0) {
                Some(v) => (p.0, v),
                None => p,
            },
    )
}

/// The update attributes whose names are absent from the base list, in
/// update order.
pub open spec fn added_attrs(
    base: Seq<(Seq<char>, AttrModel)>,
    upd: Seq<(Seq<char>, AttrModel)>,
) -> Seq<(Seq<char>, AttrModel)>
    decreases upd.len(),
{
    if upd.len() == 0 {
        Seq::empty()
    } else {
        let rest = added_attrs(base, upd.drop_last());
        if spec_attr_get(base, upd.last().0) is None {
            rest.push(upd.last())
        } else {
            rest
        }
    }
}

/// The attribute list after an attribute-level update: base values
/// overwritten per the update, new names appended.
pub open spec fn merged_attrs(
    base: Seq<(Seq<char>, AttrModel)>,
    upd: Seq<(Seq<char>, AttrModel)>,
) -> Seq<(Seq<char>, AttrModel)> {
    replace_attrs(base, upd) + added_attrs(base, upd)
}

/// Builds the item an attribute-level update leaves behind: the base
/// item's key, with the update's attributes set over the base ones.
pub fn merge_items(base: &Item, upd: &Item) -> (r: Item)
    ensures
        r@.pk == base@.pk,
        r@.sk == base@.sk,
        r@.attrs == merged_attrs(base@.attrs, upd@.attrs),
{
    let mut out: Vec<(String, Attr)> = Vec::new();
    let n = base.attrs.len();
    let mut i: usize = 0;
    while i < n
        invariant
            n == base.attrs.len(),
            i <= n,
            attrs_model(out@) =~= replace_attrs(base@.attrs, upd@.attrs).subrange(0, i as int),
        decreases n - i,
    {
        proof {
            assert(base@.attrs[i as int] == (base.attrs@[i as int].0@, base.attrs@[i as int].1@));
            assert(replace_attrs(base@.attrs, upd@.attrs)[i as int] == match spec_attr_get(
                upd@.attrs,
                base@.attrs[i as int].0,
            ) {
                Some(v) => (base@.attrs[i as int].0, v),
                None => base@.attrs[i as int],
            });
        }
        let name_c = base.attrs[i].0.clone();
        let val_c = match upd.attr_get(base.attrs[i].0.as_str()) {
            Some(a) => a.duplicate(),
            None => base.attrs[i].1.duplicate(),
        };
        proof {
            lemma_attrs_model_push(out@, (name_c, val_c));
        }
        out.push((name_c, val_c));
        proof {
            assert(attrs_model(out@) =~= replace_attrs(base@.attrs, upd@.attrs).subrange(
                0,
                i as int + 1,
            ));
        }
        i = i + 1;
    }
    proof {
        assert(replace_attrs(base@.attrs, upd@.attrs).subrange(0, n as int) =~= replace_attrs(
            base@.attrs,
            upd@.attrs,
        ));
    }
    let m = upd.attrs.len();
    let mut j: usize = 0;
    while j < m
        invariant
            m == upd.attrs.len(),
            j <= m,
            attrs_model(out@) =~= replace_attrs(base@.attrs, upd@.attrs) + added_attrs(
                base@.attrs,
                upd@.attrs.subrange(0, j as int),
            ),
        decreases m - j,
    {
        proof {
            assert(upd@.attrs[j as int] == (upd.attrs@[j as int].0@, upd.attrs@[j as int].1@));
            assert(upd@.attrs.subrange(0, j as int + 1).drop_last() =~= upd@.attrs.subrange(
                0,
                j as int,
            ));
            assert(upd@.attrs.subrange(0, j as int + 1).last() == upd@.attrs[j as int]);
        }
        if base.attr_get(upd.attrs[j].0.as_str()).is_none() {
            let name_c = upd.attrs[j].0.clone();
            let val_c = upd.attrs[j].1.duplicate();
            proof {
                lemma_attrs_model_push(out@, (name_c, val_c));
            }
            out.push((name_c, val_c));
        }
        j = j + 1;
    }
    proof {
        assert(upd@.attrs.subrange(0, m as int) =~= upd@.attrs);
    }
    let r = Item { pk: base.pk.clone(), sk: base.sk.clone(), attrs: out };
    proof {
        assert(r@.attrs =~= merged_attrs(base@.attrs, upd@.attrs));
    }
    r
}

/// Whether a name is one of the two key attribute names.
pub open spec fn is_key_name(name: Seq<char>) -> bool {
    name == "pk"@ || name == "sk"@
}

/// The attribute list with the key attributes removed, order kept.
pub open spec fn non_key_attrs(attrs: Seq<(Seq<char>, AttrModel)>) -> Seq<(Seq<char>, AttrModel)>
    decreases attrs.len(),
{
    if attrs.len() == 0 {
        Seq::empty()
    } else {
        let rest = non_key_attrs(attrs.drop_last());
        if is_key_name(attrs.last().0) {
            rest
        } else {
            rest.push(attrs.last())
        }
    }
}

/// Builds an item from a raw attribute list, as rows arrive from the
/// backend. Fails with `DecodeError` when either key attribute is missing
/// or is not a string; the key attributes are removed from the attribute
/// list of the result.
pub fn item_from_attrs(attrs: Vec<(String, Attr)>) -> (r: Result<Item, DataError>)
    ensures
        match r {
            Ok(item) => {
                &&& spec_attr_get(attrs_model(attrs@), "pk"@) == Some(AttrModel::S(item@.pk))
                &&& spec_attr_get(attrs_model(attrs@), "sk"@) == Some(AttrModel::S(item@.sk))
                &&& item@.attrs == non_key_attrs(attrs_model(attrs@))
            },
            Err(e) => {
                &&& e == DataError::DecodeError
                &&& {
                    ||| !(spec_attr_get(attrs_model(attrs@), "pk"@) matches Some(
                        AttrModel::S(_),
                    ))
                    ||| !(spec_attr_get(attrs_model(attrs@), "sk"@) matches Some(
                        AttrModel::S(_),
                    ))
                }
            },
        },
{
    let item = Item { pk: String::new(), sk: String::new(), attrs };
    let pk: String = match item.attr_get("pk") {
        Some(Attr::S(s)) => s.clone(),
        _ => {
            return Err(DataError::DecodeError);
        },
    };
    let sk: String = match item.attr_get("sk") {
        Some(Attr::S(s)) => s.clone(),
        _ => {
            return Err(DataError::DecodeError);
        },
    };
    let all = item.attrs;
    let n = all.len();
    let mut rest: Vec<(String, Attr)> = Vec::new();
    let mut i: usize = 0;
    while i < n
        invariant
            n == all.len(),
            i <= n,
            attrs_model(rest@) =~= non_key_attrs(attrs_model(all@).subrange(0, i as int)),
        decreases n - i,
    {
        proof {
            assert(attrs_model(all@).subrange(0, i + 1).drop_last() =~= attrs_model(
                all@,
            ).subrange(0, i as int));
            assert(attrs_model(all@).subrange(0, i + 1).last() == attrs_model(all@)[i as int]);
            assert(attrs_model(all@)[i as int] == (all@[i as int].0@, all@[i as int].1@));
        }
        let keep = !crate::keys::str_eq(all[i].0.as_str(), "pk") && !crate::keys::str_eq(
            all[i].0.as_str(),
            "sk",
        );
        if keep {
            let name_c = all[i].0.clone();
            let val_c = all[i].1.duplicate();
            proof {
                lemma_attrs_model_push(rest@, (name_c, val_c));
            }
            rest.push((name_c, val_c));
            proof {
                assert(attrs_model(rest@) =~= non_key_attrs(
                    attrs_model(all@).subrange(0, i as int + 1),
                ));
            }
        } else {
            proof {
                assert(attrs_model(rest@) =~= non_key_attrs(
                    attrs_model(all@).subrange(0, i as int + 1),
                ));
            }
        }
        i = i + 1;
    }
    proof {
        assert(attrs_model(all@).subrange(0, n as int) =~= attrs_model(all@));
    }
    Ok(Item { pk, sk, attrs: rest })
}

} // verus!
