//! The fixed set of well-known URIs that the schema, the validator and
//! the hierarchy resolver depend on.

use vstd::prelude::*;

verus! {

pub open spec fn url_is_a() -> Seq<char> {
    "https://atomicdata.dev/properties/isA"@
}

pub open spec fn url_shortname() -> Seq<char> {
    "https://atomicdata.dev/properties/shortname"@
}

pub open spec fn url_description() -> Seq<char> {
    "https://atomicdata.dev/properties/description"@
}

pub open spec fn url_datatype() -> Seq<char> {
    "https://atomicdata.dev/properties/datatype"@
}

pub open spec fn url_requires() -> Seq<char> {
    "https://atomicdata.dev/properties/requires"@
}

pub open spec fn url_recommends() -> Seq<char> {
    "https://atomicdata.dev/properties/recommends"@
}

pub open spec fn url_parent() -> Seq<char> {
    "https://atomicdata.dev/properties/parent"@
}

pub open spec fn url_write() -> Seq<char> {
    "https://atomicdata.dev/properties/write"@
}

pub open spec fn url_read() -> Seq<char> {
    "https://atomicdata.dev/properties/read"@
}

pub open spec fn url_public_key() -> Seq<char> {
    "https://atomicdata.dev/properties/publicKey"@
}

pub open spec fn url_class_class() -> Seq<char> {
    "https://atomicdata.dev/classes/Class"@
}

pub open spec fn url_class_property() -> Seq<char> {
    "https://atomicdata.dev/classes/Property"@
}

pub open spec fn url_class_agent() -> Seq<char> {
    "https://atomicdata.dev/classes/Agent"@
}

pub fn is_a() -> (r: &'static str)
    ensures
        r@ == url_is_a(),
{
    "https://atomicdata.dev/properties/isA"
}

pub fn shortname() -> (r: &'static str)
    ensures
        r@ == url_shortname(),
{
    "https://atomicdata.dev/properties/shortname"
}

pub fn description() -> (r: &'static str)
    ensures
        r@ == url_description(),
{
    "https://atomicdata.dev/properties/description"
}

pub fn datatype() -> (r: &'static str)
    ensures
        r@ == url_datatype(),
{
    "https://atomicdata.dev/properties/datatype"
}

pub fn requires_prop() -> (r: &'static str)
    ensures
        r@ == url_requires(),
{
    "https://atomicdata.dev/properties/requires"
}

pub fn recommends_prop() -> (r: &'static str)
    ensures
        r@ == url_recommends(),
{
    "https://atomicdata.dev/properties/recommends"
}

pub fn parent() -> (r: &'static str)
    ensures
        r@ == url_parent(),
{
    "https://atomicdata.dev/properties/parent"
}

pub fn write() -> (r: &'static str)
    ensures
        r@ == url_write(),
{
    "https://atomicdata.dev/properties/write"
}

pub fn read() -> (r: &'static str)
    ensures
        r@ == url_read(),
{
    "https://atomicdata.dev/properties/read"
}

pub fn public_key() -> (r: &'static str)
    ensures
        r@ == url_public_key(),
{
    "https://atomicdata.dev/properties/publicKey"
}

pub fn class_class() -> (r: &'static str)
    ensures
        r@ == url_class_class(),
{
    "https://atomicdata.dev/classes/Class"
}

pub fn class_property() -> (r: &'static str)
    ensures
        r@ == url_class_property(),
{
    "https://atomicdata.dev/classes/Property"
}

pub fn class_agent() -> (r: &'static str)
    ensures
        r@ == url_class_agent(),
{
    "https://atomicdata.dev/classes/Agent"
}

} // verus!
