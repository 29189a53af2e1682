//! The iwd tile: the wireless network that a device of iwd is connected to,
//! read from the objects that iwd's object manager reports over D-Bus.
use vstd::prelude::*;

use crate::config::IwdConfig;
use crate::text::{chars_of, take_until};
use crate::tile::{opt_text, Block};
use crate::tiles::TileError;

verus! {

broadcast use vstd::string::group_string_axioms;

/// A property of a D-Bus interface: its name and, where its value is a string
/// (or an object path), that text.
#[derive(Clone, Debug)]
pub struct Property {
    pub name: String,
    pub text: Option<String>,
}

/// An interface that a D-Bus object implements, with its properties.
#[derive(Clone, Debug)]
pub struct Interface {
    pub name: String,
    pub properties: Vec<Property>,
}

/// A D-Bus object that iwd manages: its path and its interfaces.
#[derive(Clone, Debug)]
pub struct ManagedObject {
    pub path: String,
    pub interfaces: Vec<Interface>,
}

/// Whether no two of the texts are the same.
pub open spec fn distinct_texts(ts: Seq<Seq<char>>) -> bool {
    forall|i: int, j: int| 0 <= i < j < ts.len() ==> ts[i] != ts[j]
}

/// Whether the objects are keyed as iwd's object manager reports them: no two
/// objects share a path, no object has two interfaces of one name, and no
/// interface has two properties of one name.
pub open spec fn well_keyed(os: Seq<ManagedObject>) -> bool {
    &&& distinct_texts(os.map_values(|o: ManagedObject| o.path@))
    &&& forall|k: int|
        0 <= k < os.len() ==> distinct_texts(
            (#[trigger] os[k]).interfaces@.map_values(|i: Interface| i.name@),
        )
    &&& forall|k: int, l: int|
        0 <= k < os.len() && 0 <= l < os[k].interfaces@.len() ==> distinct_texts(
            (#[trigger] os[k].interfaces@[l]).properties@.map_values(|p: Property| p.name@),
        )
}

/// The objects that iwd's object manager reports: a map from object path to a
/// map from interface name to a map from property name to value, held as lists
/// in which no key occurs twice.
pub struct ManagedObjects {
    objects: Vec<ManagedObject>,
}

impl View for ManagedObjects {
    type V = Seq<ManagedObject>;

    closed spec fn view(&self) -> Seq<ManagedObject> {
        self.objects@
    }
}

/// Whether no two of `names` are the same.
fn texts_distinct(names: &Vec<String>) -> (b: bool)
    ensures
        b == distinct_texts(names@.map_values(|s: String| s@)),
{
    let ghost ts = names@.map_values(|s: String| s@);
    let mut j: usize = 0;
    while j < names.len()
        invariant
            0 <= j <= names@.len(),
            ts == names@.map_values(|s: String| s@),
            forall|a: int, b: int| 0 <= a < b < j ==> ts[a] != ts[b],
        decreases names.len() - j,
    {
        let mut i: usize = 0;
        while i < j
            invariant
                0 <= i <= j < names@.len(),
                ts == names@.map_values(|s: String| s@),
                forall|a: int, b: int| 0 <= a < b < j ==> ts[a] != ts[b],
                forall|a: int| 0 <= a < i ==> ts[a] != ts[j as int],
            decreases j - i,
        {
            if same_text(names[i].as_str(), names[j].as_str()) {
                assert(ts[i as int] == ts[j as int]);
                return false;
            }
            i = i + 1;
        }
        j = j + 1;
    }
    true
}

/// Whether the properties of an interface are keyed by distinct names.
fn properties_distinct(ps: &Vec<Property>) -> (b: bool)
    ensures
        b == distinct_texts(ps@.map_values(|p: Property| p.name@)),
{
    let mut names: Vec<String> = Vec::new();
    let mut k: usize = 0;
    while k < ps.len()
        invariant
            0 <= k <= ps@.len(),
            names@.len() == k,
            forall|a: int| 0 <= a < k ==> (#[trigger] names@[a])@ == ps@[a].name@,
        decreases ps.len() - k,
    {
        names.push(ps[k].name.clone());
        k = k + 1;
    }
    assert(names@.map_values(|s: String| s@) =~= ps@.map_values(|p: Property| p.name@));
    texts_distinct(&names)
}

/// Whether the interfaces of an object, and the properties of each, are keyed
/// by distinct names.
fn object_well_keyed(o: &ManagedObject) -> (b: bool)
    ensures
        b == (distinct_texts(o.interfaces@.map_values(|i: Interface| i.name@)) && forall|l: int|
            0 <= l < o.interfaces@.len() ==> distinct_texts(
                (#[trigger] o.interfaces@[l]).properties@.map_values(|p: Property| p.name@),
            )),
{
    let mut names: Vec<String> = Vec::new();
    let mut k: usize = 0;
    while k < o.interfaces.len()
        invariant
            0 <= k <= o.interfaces@.len(),
            names@.len() == k,
            forall|a: int| 0 <= a < k ==> (#[trigger] names@[a])@ == o.interfaces@[a].name@,
            forall|l: int|
                0 <= l < k ==> distinct_texts(
                    (#[trigger] o.interfaces@[l]).properties@.map_values(|p: Property| p.name@),
                ),
        decreases o.interfaces.len() - k,
    {
        if !properties_distinct(&o.interfaces[k].properties) {
            return false;
        }
        names.push(o.interfaces[k].name.clone());
        k = k + 1;
    }
    assert(names@.map_values(|s: String| s@) =~= o.interfaces@.map_values(|i: Interface| i.name@));
    texts_distinct(&names)
}

impl ManagedObjects {
    #[verifier::type_invariant]
    spec fn keys_are_distinct(self) -> bool {
        well_keyed(self.objects@)
    }

    /// The objects, where no key occurs twice among them; `None` where one does.
    pub fn new(objects: Vec<ManagedObject>) -> (r: Option<ManagedObjects>)
        ensures
            r is Some <==> well_keyed(objects@),
            r matches Some(m) ==> m@ == objects@,
    {
        let mut paths: Vec<String> = Vec::new();
        let mut k: usize = 0;
        while k < objects.len()
            invariant
                0 <= k <= objects@.len(),
                paths@.len() == k,
                forall|a: int| 0 <= a < k ==> (#[trigger] paths@[a])@ == objects@[a].path@,
                forall|a: int|
                    0 <= a < k ==> distinct_texts(
                        (#[trigger] objects@[a]).interfaces@.map_values(|i: Interface| i.name@),
                    ),
                forall|a: int, l: int|
                    0 <= a < k && 0 <= l < objects@[a].interfaces@.len() ==> distinct_texts(
                        (#[trigger] objects@[a].interfaces@[l]).properties@.map_values(
                            |p: Property| p.name@,
                        ),
                    ),
            decreases objects.len() - k,
        {
            if !object_well_keyed(&objects[k]) {
                return None;
            }
            paths.push(objects[k].path.clone());
            k = k + 1;
        }
        assert(paths@.map_values(|s: String| s@) =~= objects@.map_values(
            |o: ManagedObject| o.path@,
        ));
        if !texts_distinct(&paths) {
            return None;
        }
        Some(ManagedObjects { objects })
    }

    /// The objects, as a list.
    pub fn objects(&self) -> (v: &Vec<ManagedObject>)
        ensures
            v@ == self@,
            well_keyed(self@),
    {
        proof {
            use_type_invariant(self);
        }
        &self.objects
    }
}

/// The first property of `ps` named `name`.
pub open spec fn find_property(ps: Seq<Property>, name: Seq<char>) -> Option<Property>
    decreases ps.len(),
{
    if ps.len() == 0 {
        None
    } else if ps[0].name@ == name {
        Some(ps[0])
    } else {
        find_property(ps.drop_first(), name)
    }
}

/// The first interface of `is` named `name`.
pub open spec fn find_interface(is: Seq<Interface>, name: Seq<char>) -> Option<Interface>
    decreases is.len(),
{
    if is.len() == 0 {
        None
    } else if is[0].name@ == name {
        Some(is[0])
    } else {
        find_interface(is.drop_first(), name)
    }
}

/// The first object of `os` at `path`.
pub open spec fn find_object(os: Seq<ManagedObject>, path: Seq<char>) -> Option<ManagedObject>
    decreases os.len(),
{
    if os.len() == 0 {
        None
    } else if os[0].path@ == path {
        Some(os[0])
    } else {
        find_object(os.drop_first(), path)
    }
}

/// The text of the property `property` of the interface `interface` of the
/// object at `path`, where all three are there and the value is a string.
pub open spec fn property_text(
    os: Seq<ManagedObject>,
    path: Seq<char>,
    interface: Seq<char>,
    property: Seq<char>,
) -> Option<Seq<char>> {
    match find_object(os, path) {
        None => None,
        Some(o) => match find_interface(o.interfaces@, interface) {
            None => None,
            Some(i) => match find_property(i.properties@, property) {
                None => None,
                Some(p) => opt_text(p.text),
            },
        },
    }
}

/// Whether `interface` (one of the interfaces of an object) is a device of iwd
/// whose `Name` property is the string `device`.
pub open spec fn is_device_named(interface: Interface, device: Seq<char>) -> bool {
    &&& interface.name@ == "net.connman.iwd.Device"@
    &&& find_property(interface.properties@, "Name"@) matches Some(p)
    &&& opt_text(p.text) == Some(device)
}

/// Whether the object `o` has an interface that is the device named `device`.
pub open spec fn has_device_named(o: ManagedObject, device: Seq<char>) -> bool {
    exists|k: int| 0 <= k < o.interfaces@.len() && is_device_named(#[trigger] o.interfaces@[k], device)
}

/// The path of the first object of `os` that is the device named `device`.
pub open spec fn device_path(os: Seq<ManagedObject>, device: Seq<char>) -> Option<Seq<char>>
    decreases os.len(),
{
    if os.len() == 0 {
        None
    } else if has_device_named(os[0], device) {
        Some(os[0].path@)
    } else {
        device_path(os.drop_first(), device)
    }
}

proof fn lemma_device_path(os: Seq<ManagedObject>, device: Seq<char>)
    ensures
        device_path(os, device) is None <==> forall|k: int|
            0 <= k < os.len() ==> !has_device_named(#[trigger] os[k], device),
        device_path(os, device) matches Some(p) ==> exists|k: int|
            0 <= k < os.len() && #[trigger] os[k].path@ == p && has_device_named(os[k], device),
    decreases os.len(),
{
    if os.len() > 0 {
        lemma_device_path(os.drop_first(), device);
        if device_path(os, device) is None {
            assert forall|k: int| 0 <= k < os.len() implies !has_device_named(
                #[trigger] os[k],
                device,
            ) by {
                if k > 0 {
                    assert(os[k] == os.drop_first()[k - 1]);
                }
            }
        }
        if let Some(p) = device_path(os.drop_first(), device) {
            if !has_device_named(os[0], device) {
                let k = choose|k: int|
                    0 <= k < os.drop_first().len() && #[trigger] os.drop_first()[k].path@ == p
                        && has_device_named(os.drop_first()[k], device);
                assert(os[k + 1] == os.drop_first()[k]);
            }
        }
    }
}

/// Whether the text `a` is the text `b`.
fn same_text(a: &str, b: &str) -> (r: bool)
    ensures
        r == (a@ == b@),
{
    let x = chars_of(a);
    let y = chars_of(b);
    if x.len() != y.len() {
        return false;
    }
    let mut i: usize = 0;
    while i < x.len()
        invariant
            0 <= i <= x@.len(),
            x@.len() == y@.len(),
            x@ == a@,
            y@ == b@,
            forall|k: int| 0 <= k < i ==> x@[k] == y@[k],
        decreases x.len() - i,
    {
        if x[i] != y[i] {
            return false;
        }
        i = i + 1;
    }
    assert(x@ =~= y@);
    true
}

fn get_property<'a>(ps: &'a Vec<Property>, name: &str) -> (r: Option<&'a Property>)
    ensures
        match find_property(ps@, name@) {
            Some(p) => r matches Some(q) && *q == p,
            None => r is None,
        },
{
    let mut i: usize = 0;
    assert(ps@.skip(0) =~= ps@);
    while i < ps.len()
        invariant
            0 <= i <= ps@.len(),
            find_property(ps@, name@) == find_property(ps@.skip(i as int), name@),
        decreases ps.len() - i,
    {
        assert(ps@.skip(i as int).drop_first() =~= ps@.skip(i + 1));
        if same_text(ps[i].name.as_str(), name) {
            return Some(&ps[i]);
        }
        i = i + 1;
    }
    None
}

fn get_interface<'a>(is: &'a Vec<Interface>, name: &str) -> (r: Option<&'a Interface>)
    ensures
        match find_interface(is@, name@) {
            Some(i) => r matches Some(j) && *j == i,
            None => r is None,
        },
{
    let mut i: usize = 0;
    assert(is@.skip(0) =~= is@);
    while i < is.len()
        invariant
            0 <= i <= is@.len(),
            find_interface(is@, name@) == find_interface(is@.skip(i as int), name@),
        decreases is.len() - i,
    {
        assert(is@.skip(i as int).drop_first() =~= is@.skip(i + 1));
        if same_text(is[i].name.as_str(), name) {
            return Some(&is[i]);
        }
        i = i + 1;
    }
    None
}

fn get_object<'a>(os: &'a Vec<ManagedObject>, path: &str) -> (r: Option<&'a ManagedObject>)
    ensures
        match find_object(os@, path@) {
            Some(o) => r matches Some(q) && *q == o,
            None => r is None,
        },
{
    let mut i: usize = 0;
    assert(os@.skip(0) =~= os@);
    while i < os.len()
        invariant
            0 <= i <= os@.len(),
            find_object(os@, path@) == find_object(os@.skip(i as int), path@),
        decreases os.len() - i,
    {
        assert(os@.skip(i as int).drop_first() =~= os@.skip(i + 1));
        if same_text(os[i].path.as_str(), path) {
            return Some(&os[i]);
        }
        i = i + 1;
    }
    None
}

/// The text of a property, found by object path, interface and name.
fn get_property_text(os: &Vec<ManagedObject>, path: &str, interface: &str, property: &str) -> (r:
    Option<String>)
    ensures
        opt_text(r) == property_text(os@, path@, interface@, property@),
{
    match get_object(os, path) {
        None => None,
        Some(o) => match get_interface(&o.interfaces, interface) {
            None => None,
            Some(i) => match get_property(&i.properties, property) {
                None => None,
                Some(p) => match &p.text {
                    None => None,
                    Some(t) => Some(t.clone()),
                },
            },
        },
    }
}

/// Whether one of the interfaces of `o` is the device named `device`.
fn object_has_device(o: &ManagedObject, device: &str) -> (r: bool)
    ensures
        r == has_device_named(*o, device@),
{
    let mut k: usize = 0;
    while k < o.interfaces.len()
        invariant
            0 <= k <= o.interfaces@.len(),
            forall|j: int| 0 <= j < k ==> !is_device_named(#[trigger] o.interfaces@[j], device@),
        decreases o.interfaces.len() - k,
    {
        let i = &o.interfaces[k];
        if same_text(i.name.as_str(), "net.connman.iwd.Device") {
            if let Some(p) = get_property(&i.properties, "Name") {
                if let Some(t) = &p.text {
                    if same_text(t.as_str(), device) {
                        assert(is_device_named(o.interfaces@[k as int], device@));
                        return true;
                    }
                }
            }
        }
        k = k + 1;
    }
    false
}

/// The path of the first object of `objects` that is iwd's device named `device`.
fn device_path_in(objects: &Vec<ManagedObject>, interface_name: &str) -> (r: Option<String>)
    ensures
        opt_text(r) == device_path(objects@, interface_name@),
        r is None <==> forall|k: int|
            0 <= k < objects@.len() ==> !has_device_named(#[trigger] objects@[k], interface_name@),
        r matches Some(p) ==> exists|k: int|
            0 <= k < objects@.len() && #[trigger] objects@[k].path@ == p@ && has_device_named(
                objects@[k],
                interface_name@,
            ),
{
    proof {
        lemma_device_path(objects@, interface_name@);
    }
    let mut i: usize = 0;
    assert(objects@.skip(0) =~= objects@);
    while i < objects.len()
        invariant
            0 <= i <= objects@.len(),
            device_path(objects@, interface_name@) == device_path(
                objects@.skip(i as int),
                interface_name@,
            ),
        decreases objects.len() - i,
    {
        assert(objects@.skip(i as int).drop_first() =~= objects@.skip(i + 1));
        if object_has_device(&objects[i], interface_name) {
            return Some(objects[i].path.clone());
        }
        i = i + 1;
    }
    None
}

/// The path of the object that is iwd's device named `interface_name`, if
/// there is one; where several are, the first.
pub fn get_interface_path(objects: &ManagedObjects, interface_name: &str) -> (r: Option<String>)
    ensures
        opt_text(r) == device_path(objects@, interface_name@),
        r is None <==> forall|k: int|
            0 <= k < objects@.len() ==> !has_device_named(#[trigger] objects@[k], interface_name@),
        r matches Some(p) ==> exists|k: int|
            0 <= k < objects@.len() && #[trigger] objects@[k].path@ == p@ && has_device_named(
                objects@[k],
                interface_name@,
            ),
{
    device_path_in(&objects.objects, interface_name)
}

/// What the iwd tile shows for the device named `device` among `os`, given the
/// path of the network it is connected to (`None`: not connected): either the
/// text of the block or why there is none.
pub open spec fn iwd_text(os: Seq<ManagedObject>, device: Seq<char>, network: Option<Seq<char>>) -> Result<
    Seq<char>,
    TileError,
> {
    if device_path(os, device) is None {
        Err(TileError::InterfaceNotFound)
    } else {
        match network {
            Some(path) => match property_text(os, path, "net.connman.iwd.Network"@, "Name"@) {
                Some(name) => Ok(device + ": "@ + name),
                None => Err(TileError::NetworkNameMissing),
            },
            None => Ok(device + ": disconnected"@),
        }
    }
}

/// The `ConnectedNetwork` property of the station of the device named
/// `device`, as text, where the device is there and the property is set.
pub open spec fn connected_network(os: Seq<ManagedObject>, device: Seq<char>) -> Option<Seq<char>> {
    match device_path(os, device) {
        None => None,
        Some(path) => property_text(os, path, "net.connman.iwd.Station"@, "ConnectedNetwork"@),
    }
}

/// The iwd block for the device of `config`, given the path of the network it is
/// connected to (`None`: not connected).
pub fn iwd_block_for(objects: &ManagedObjects, config: &IwdConfig, network: Option<String>) -> (r:
    Result<Block, TileError>)
    ensures
        match iwd_text(objects@, config.interface@, opt_text(network)) {
            Ok(t) => r matches Ok(b) && b.shows(t, None, config.interface@),
            Err(e) => r == Err::<Block, TileError>(e),
        },
{
    let iface = &config.interface;
    if get_interface_path(objects, iface.as_str()).is_none() {
        return Err(TileError::InterfaceNotFound);
    }
    let text = match network {
        Some(path) => match get_property_text(
            &objects.objects,
            path.as_str(),
            "net.connman.iwd.Network",
            "Name",
        ) {
            Some(name) => iface.clone().concat(": ").concat(name.as_str()),
            None => return Err(TileError::NetworkNameMissing),
        },
        None => iface.clone().concat(": disconnected"),
    };
    Ok(Block::with_text(text, None, iface.clone()))
}

/// Whether `s` is a valid D-Bus object path, as `dbus::Path::from_slice` (and
/// so libdbus's `dbus_validate_path`) decides it.
pub uninterp spec fn valid_object_path(s: Seq<char>) -> bool;

/// Whether `c` may stand in an element of an object path: an ASCII letter, an
/// ASCII digit or `_`.
pub open spec fn is_path_char(c: char) -> bool {
    ('A' <= c <= 'Z') || ('a' <= c <= 'z') || ('0' <= c <= '9') || c == '_'
}

/// Whether `p` is an object path: it starts with `/`, its elements are made of
/// path characters and none is empty, and it ends in `/` only where it is `/`.
pub open spec fn is_object_path_text(p: Seq<char>) -> bool {
    &&& p.len() > 0
    &&& p[0] == '/'
    &&& forall|k: int|
        1 <= k < p.len() ==> if #[trigger] p[k] == '/' {
            p[k - 1] != '/'
        } else {
            is_path_char(p[k])
        }
    &&& p.len() > 1 ==> p.last() != '/'
}

/// `dbus::Path::from_slice(s).is_ok()`. libdbus reads the text as a C string,
/// up to its first NUL, and accepts it where that is an object path; the
/// contract states so for texts short enough for libdbus's string length (an
/// `int`), and names the answer for every text.
#[verifier::external_body]
fn is_object_path(s: &str) -> (b: bool)
    ensures
        b == valid_object_path(s@),
        s@.len() < 0x1000_0000 ==> (b == is_object_path_text(take_until(s@, '\0'))),
{
    dbus::Path::from_slice(s).is_ok()
}

/// The iwd block for the device of `config` among the objects that iwd manages:
/// `"{interface}: {network}"` where the device's station is connected to a
/// network (a valid object path whose network has a name), else
/// `"{interface}: disconnected"`; the block is named after the interface.
pub fn iwd_block(objects: &ManagedObjects, config: &IwdConfig) -> (r: Result<Block, TileError>)
    ensures
        ({
            let network = match connected_network(objects@, config.interface@) {
                Some(p) => if valid_object_path(p) {
                    Some(p)
                } else {
                    None
                },
                None => None,
            };
            match iwd_text(objects@, config.interface@, network) {
                Ok(t) => r matches Ok(b) && b.shows(t, None, config.interface@),
                Err(e) => r == Err::<Block, TileError>(e),
            }
        }),
        (connected_network(objects@, config.interface@) matches Some(p) && p.len() < 0x1000_0000)
            ==> valid_object_path(connected_network(objects@, config.interface@)->0)
            == is_object_path_text(
            take_until(connected_network(objects@, config.interface@)->0, '\0'),
        ),
{
    let network = match get_interface_path(objects, config.interface.as_str()) {
        None => None,
        Some(path) => match get_property_text(
            &objects.objects,
            path.as_str(),
            "net.connman.iwd.Station",
            "ConnectedNetwork",
        ) {
            Some(p) => if is_object_path(p.as_str()) {
                Some(p)
            } else {
                None
            },
            None => None,
        },
    };
    iwd_block_for(objects, config, network)
}

/// An object is found by its exact path: what is found has that path and is
/// one of the list, nothing is found only where no object has that path, and
/// where no two objects share a path, the one found is the one that has it.
pub proof fn lemma_find_object_exact(xs: Seq<ManagedObject>, key: Seq<char>)
    ensures
        find_object(xs, key) matches Some(x) ==> x.path@ == key && xs.contains(x),
        find_object(xs, key) is None <==> forall|k: int|
            0 <= k < xs.len() ==> (#[trigger] xs[k]).path@ != key,
    decreases xs.len(),
{
    if xs.len() > 0 {
        lemma_find_object_exact(xs.drop_first(), key);
        if let Some(x) = find_object(xs.drop_first(), key) {
            if xs[0].path@ != key {
                let k = choose|k: int| 0 <= k < xs.drop_first().len() && xs.drop_first()[k] == x;
                assert(xs[k + 1] == x);
            }
        }
        if find_object(xs, key) is None {
            assert forall|k: int| 0 <= k < xs.len() implies (#[trigger] xs[k]).path@ != key by {
                if k > 0 {
                    assert(xs[k] == xs.drop_first()[k - 1]);
                }
            }
        } else if xs[0].path@ != key {
            assert(find_object(xs.drop_first(), key) is Some);
        }
        if xs[0].path@ == key {
            assert(xs.contains(xs[0]));
        }
    }
}

/// Where no two objects share a path, the object at `k` is the one found by its path.
pub proof fn lemma_find_object_unique(xs: Seq<ManagedObject>, k: int)
    requires
        0 <= k < xs.len(),
        distinct_texts(xs.map_values(|x: ManagedObject| x.path@)),
    ensures
        find_object(xs, xs[k].path@) == Some(xs[k]),
    decreases xs.len(),
{
    let ns = xs.map_values(|x: ManagedObject| x.path@);
    if xs[0].path@ == xs[k].path@ {
        if k != 0 {
            assert(ns[0] == ns[k]);
        }
    } else {
        let rest = xs.drop_first();
        assert(rest.map_values(|x: ManagedObject| x.path@) =~= ns.drop_first());
        assert(xs[k] == rest[k - 1]);
        lemma_find_object_unique(rest, k - 1);
    }
}

/// An interface is found by its exact name: what is found has that name and is
/// one of the list, nothing is found only where no interface has that name, and
/// where no two interfaces share a name, the one found is the one that has it.
pub proof fn lemma_find_interface_exact(xs: Seq<Interface>, key: Seq<char>)
    ensures
        find_interface(xs, key) matches Some(x) ==> x.name@ == key && xs.contains(x),
        find_interface(xs, key) is None <==> forall|k: int|
            0 <= k < xs.len() ==> (#[trigger] xs[k]).name@ != key,
    decreases xs.len(),
{
    if xs.len() > 0 {
        lemma_find_interface_exact(xs.drop_first(), key);
        if let Some(x) = find_interface(xs.drop_first(), key) {
            if xs[0].name@ != key {
                let k = choose|k: int| 0 <= k < xs.drop_first().len() && xs.drop_first()[k] == x;
                assert(xs[k + 1] == x);
            }
        }
        if find_interface(xs, key) is None {
            assert forall|k: int| 0 <= k < xs.len() implies (#[trigger] xs[k]).name@ != key by {
                if k > 0 {
                    assert(xs[k] == xs.drop_first()[k - 1]);
                }
            }
        } else if xs[0].name@ != key {
            assert(find_interface(xs.drop_first(), key) is Some);
        }
        if xs[0].name@ == key {
            assert(xs.contains(xs[0]));
        }
    }
}

/// Where no two interfaces share a name, the interface at `k` is the one found by its name.
pub proof fn lemma_find_interface_unique(xs: Seq<Interface>, k: int)
    requires
        0 <= k < xs.len(),
        distinct_texts(xs.map_values(|x: Interface| x.name@)),
    ensures
        find_interface(xs, xs[k].name@) == Some(xs[k]),
    decreases xs.len(),
{
    let ns = xs.map_values(|x: Interface| x.name@);
    if xs[0].name@ == xs[k].name@ {
        if k != 0 {
            assert(ns[0] == ns[k]);
        }
    } else {
        let rest = xs.drop_first();
        assert(rest.map_values(|x: Interface| x.name@) =~= ns.drop_first());
        assert(xs[k] == rest[k - 1]);
        lemma_find_interface_unique(rest, k - 1);
    }
}

/// A property is found by its exact name: what is found has that name and is
/// one of the list, nothing is found only where no property has that name, and
/// where no two properties share a name, the one found is the one that has it.
pub proof fn lemma_find_property_exact(xs: Seq<Property>, key: Seq<char>)
    ensures
        find_property(xs, key) matches Some(x) ==> x.name@ == key && xs.contains(x),
        find_property(xs, key) is None <==> forall|k: int|
            0 <= k < xs.len() ==> (#[trigger] xs[k]).name@ != key,
    decreases xs.len(),
{
    if xs.len() > 0 {
        lemma_find_property_exact(xs.drop_first(), key);
        if let Some(x) = find_property(xs.drop_first(), key) {
            if xs[0].name@ != key {
                let k = choose|k: int| 0 <= k < xs.drop_first().len() && xs.drop_first()[k] == x;
                assert(xs[k + 1] == x);
            }
        }
        if find_property(xs, key) is None {
            assert forall|k: int| 0 <= k < xs.len() implies (#[trigger] xs[k]).name@ != key by {
                if k > 0 {
                    assert(xs[k] == xs.drop_first()[k - 1]);
                }
            }
        } else if xs[0].name@ != key {
            assert(find_property(xs.drop_first(), key) is Some);
        }
        if xs[0].name@ == key {
            assert(xs.contains(xs[0]));
        }
    }
}

/// Where no two properties share a name, the property at `k` is the one found by its name.
pub proof fn lemma_find_property_unique(xs: Seq<Property>, k: int)
    requires
        0 <= k < xs.len(),
        distinct_texts(xs.map_values(|x: Property| x.name@)),
    ensures
        find_property(xs, xs[k].name@) == Some(xs[k]),
    decreases xs.len(),
{
    let ns = xs.map_values(|x: Property| x.name@);
    if xs[0].name@ == xs[k].name@ {
        if k != 0 {
            assert(ns[0] == ns[k]);
        }
    } else {
        let rest = xs.drop_first();
        assert(rest.map_values(|x: Property| x.name@) =~= ns.drop_first());
        assert(xs[k] == rest[k - 1]);
        lemma_find_property_unique(rest, k - 1);
    }
}

/// Where no key repeats, a property is read at its own object path,
/// interface name and property name: what is read is its text.
pub proof fn lemma_property_text_at(os: Seq<ManagedObject>, m: int, i: int, j: int)
    requires
        well_keyed(os),
        0 <= m < os.len(),
        0 <= i < os[m].interfaces@.len(),
        0 <= j < os[m].interfaces@[i].properties@.len(),
    ensures
        property_text(
            os,
            os[m].path@,
            os[m].interfaces@[i].name@,
            os[m].interfaces@[i].properties@[j].name@,
        ) == opt_text(os[m].interfaces@[i].properties@[j].text),
{
    lemma_find_object_unique(os, m);
    let o = os[m];
    assert(distinct_texts(o.interfaces@.map_values(|x: Interface| x.name@)));
    lemma_find_interface_unique(o.interfaces@, i);
    let f = o.interfaces@[i];
    assert(distinct_texts(f.properties@.map_values(|x: Property| x.name@)));
    lemma_find_property_unique(f.properties@, j);
}

/// Where no key repeats and the device named `device` is the object at `d`,
/// whose station's `ConnectedNetwork` is the path of the object at `m`, whose
/// network's `Name` is `name`: the iwd tile shows `"{device}: {name}"`, wherever
/// the objects stand in the list.
pub proof fn lemma_iwd_shows_connected_network(
    os: Seq<ManagedObject>,
    device: Seq<char>,
    d: int,
    si: int,
    sj: int,
    m: int,
    ni: int,
    nj: int,
    name: Seq<char>,
)
    requires
        well_keyed(os),
        0 <= d < os.len(),
        device_path(os, device) == Some(os[d].path@),
        0 <= si < os[d].interfaces@.len(),
        os[d].interfaces@[si].name@ == "net.connman.iwd.Station"@,
        0 <= sj < os[d].interfaces@[si].properties@.len(),
        os[d].interfaces@[si].properties@[sj].name@ == "ConnectedNetwork"@,
        opt_text(os[d].interfaces@[si].properties@[sj].text) == Some(os[m].path@),
        0 <= m < os.len(),
        0 <= ni < os[m].interfaces@.len(),
        os[m].interfaces@[ni].name@ == "net.connman.iwd.Network"@,
        0 <= nj < os[m].interfaces@[ni].properties@.len(),
        os[m].interfaces@[ni].properties@[nj].name@ == "Name"@,
        opt_text(os[m].interfaces@[ni].properties@[nj].text) == Some(name),
    ensures
        connected_network(os, device) == Some(os[m].path@),
        iwd_text(os, device, connected_network(os, device)) == Ok::<Seq<char>, TileError>(
            device + ": "@ + name,
        ),
{
    lemma_property_text_at(os, d, si, sj);
    lemma_property_text_at(os, m, ni, nj);
}

/// Whether property `j` of interface `i` of object `k` says that the object is
/// iwd's device named `device`: the interface is `net.connman.iwd.Device` and
/// the property is its `Name`, the string `device`.
pub open spec fn names_device(os: Seq<ManagedObject>, k: int, i: int, j: int, device: Seq<char>) -> bool {
    &&& 0 <= k < os.len()
    &&& 0 <= i < os[k].interfaces@.len()
    &&& 0 <= j < os[k].interfaces@[i].properties@.len()
    &&& os[k].interfaces@[i].name@ == "net.connman.iwd.Device"@
    &&& os[k].interfaces@[i].properties@[j].name@ == "Name"@
    &&& opt_text(os[k].interfaces@[i].properties@[j].text) == Some(device)
}

proof fn lemma_device_named_at(os: Seq<ManagedObject>, k: int, device: Seq<char>)
    requires
        well_keyed(os),
        0 <= k < os.len(),
    ensures
        has_device_named(os[k], device) <==> exists|i: int, j: int| names_device(os, k, i, j, device),
{
    let o = os[k];
    if has_device_named(o, device) {
        let i = choose|i: int| 0 <= i < o.interfaces@.len() && is_device_named(#[trigger] o.interfaces@[i], device);
        let ps = o.interfaces@[i].properties@;
        lemma_find_property_exact(ps, "Name"@);
        let p = find_property(ps, "Name"@)->0;
        let j = choose|j: int| 0 <= j < ps.len() && ps[j] == p;
        assert(names_device(os, k, i, j, device));
    }
    if exists|i: int, j: int| names_device(os, k, i, j, device) {
        let (i, j) = choose|i: int, j: int| names_device(os, k, i, j, device);
        let ps = o.interfaces@[i].properties@;
        assert(distinct_texts(ps.map_values(|x: Property| x.name@)));
        lemma_find_property_unique(ps, j);
        assert(is_device_named(o.interfaces@[i], device));
    }
}

/// Where no key repeats, the tile finds a device exactly when some object has
/// a `net.connman.iwd.Device` interface whose `Name` is the configured one, and
/// what it finds is the path of such an object.
pub proof fn lemma_device_path_finds_device(os: Seq<ManagedObject>, device: Seq<char>)
    requires
        well_keyed(os),
    ensures
        device_path(os, device) is Some <==> exists|k: int, i: int, j: int|
            names_device(os, k, i, j, device),
        device_path(os, device) matches Some(p) ==> exists|k: int, i: int, j: int|
            names_device(os, k, i, j, device) && os[k].path@ == p,
{
    lemma_device_path(os, device);
    if let Some(p) = device_path(os, device) {
        let k = choose|k: int|
            0 <= k < os.len() && #[trigger] os[k].path@ == p && has_device_named(os[k], device);
        lemma_device_named_at(os, k, device);
        let (i, j) = choose|i: int, j: int| names_device(os, k, i, j, device);
        assert(names_device(os, k, i, j, device) && os[k].path@ == p);
    } else {
        if exists|k: int, i: int, j: int| names_device(os, k, i, j, device) {
            let (k, i, j) = choose|k: int, i: int, j: int| names_device(os, k, i, j, device);
            lemma_device_named_at(os, k, device);
            assert(!has_device_named(os[k], device));
        }
    }
}

} // verus!
