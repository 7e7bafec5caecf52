//! The bounds that an inventory must keep before the launcher uses it.

use crate::config::{
    Inventory, InventoryApp, InventoryFolder, MAX_INVENTORY_APPS, MAX_INVENTORY_APP_TEXT_BYTES,
    MAX_INVENTORY_ERROR_BYTES, MAX_INVENTORY_EXEC_BYTES, MAX_INVENTORY_FOLDERS,
    MAX_INVENTORY_FOLDER_BYTES, MAX_INVENTORY_HOST_BYTES,
};
use crate::text::{contains_text, debug_form, decimal, len_bytes};
use vstd::prelude::*;
use vstd::string::*;

verus! {

/// The complaint about a field that is too long.
pub open spec fn field_text(name: Seq<char>, limit: usize) -> Seq<char> {
    "inventory "@ + name + " exceeds "@ + crate::text::decimal_text(limit as nat) + " bytes"@
}

/// The complaint about too many of something.
pub open spec fn count_text(limit: usize, what: Seq<char>) -> Seq<char> {
    "inventory has more than "@ + crate::text::decimal_text(limit as nat) + what
}

/// The complaint about an application, if one of its fields is too long.
pub open spec fn app_fault(app: InventoryApp) -> Option<Seq<char>> {
    if crate::text::byte_len(app.name@) > MAX_INVENTORY_APP_TEXT_BYTES {
        Some(field_text("application name"@, MAX_INVENTORY_APP_TEXT_BYTES))
    } else if crate::text::byte_len(app.icon@) > MAX_INVENTORY_APP_TEXT_BYTES {
        Some(field_text("application icon"@, MAX_INVENTORY_APP_TEXT_BYTES))
    } else if crate::text::byte_len(app.desktop_file@) > MAX_INVENTORY_APP_TEXT_BYTES {
        Some(field_text("desktop file"@, MAX_INVENTORY_APP_TEXT_BYTES))
    } else if app.id is Some && crate::text::byte_len(app.id->0@) > MAX_INVENTORY_APP_TEXT_BYTES {
        Some(field_text("application id"@, MAX_INVENTORY_APP_TEXT_BYTES))
    } else if crate::text::byte_len(app.command@) > MAX_INVENTORY_EXEC_BYTES {
        Some(field_text("application exec"@, MAX_INVENTORY_EXEC_BYTES))
    } else {
        None
    }
}

/// The complaint about a folder's applications, in their order.
pub open spec fn apps_fault(apps: Seq<InventoryApp>) -> Option<Seq<char>>
    decreases apps.len(),
{
    if apps.len() == 0 {
        None
    } else {
        match apps_fault(apps.drop_last()) {
            Some(fault) => Some(fault),
            None => match app_fault(apps.last()) {
                Some(fault) => Some(fault),
                None => if apps.len() > MAX_INVENTORY_APPS {
                    Some(count_text(MAX_INVENTORY_APPS, " applications"@))
                } else {
                    None
                },
            },
        }
    }
}

/// The number of applications in all folders.
pub open spec fn total_apps(folders: Seq<InventoryFolder>) -> nat
    decreases folders.len(),
{
    if folders.len() == 0 {
        0
    } else {
        total_apps(folders.drop_last()) + folders.last().apps@.len()
    }
}

/// The complaint about the shape of the folders, in their order.
pub open spec fn shape_fault(folders: Seq<InventoryFolder>) -> Option<Seq<char>>
    decreases folders.len(),
{
    if folders.len() == 0 {
        None
    } else {
        match shape_fault(folders.drop_last()) {
            Some(fault) => Some(fault),
            None => match apps_fault(folders.last().apps@) {
                Some(fault) => Some(fault),
                None => if crate::text::byte_len(folders.last().label@)
                    > MAX_INVENTORY_FOLDER_BYTES {
                    Some(field_text("folder label"@, MAX_INVENTORY_FOLDER_BYTES))
                } else if folders.len() > MAX_INVENTORY_FOLDERS {
                    Some(count_text(MAX_INVENTORY_FOLDERS, " folders"@))
                } else if total_apps(folders) > MAX_INVENTORY_APPS {
                    Some(count_text(MAX_INVENTORY_APPS, " applications"@))
                } else {
                    None
                },
            },
        }
    }
}

/// The id of an application: its own, or else its name.
pub open spec fn app_key(app: InventoryApp) -> Seq<char> {
    match app.id {
        Some(id) => id@,
        None => app.name@,
    }
}

/// The ids of all applications, in order.
pub open spec fn app_keys(folders: Seq<InventoryFolder>) -> Seq<Seq<char>>
    decreases folders.len(),
{
    if folders.len() == 0 {
        Seq::empty()
    } else {
        app_keys(folders.drop_last()) + Seq::new(
            folders.last().apps@.len(),
            |i: int| app_key(folders.last().apps@[i]),
        )
    }
}

/// The first id that occurs a second time.
pub open spec fn repeated_key(keys: Seq<Seq<char>>) -> Option<Seq<char>>
    decreases keys.len(),
{
    if keys.len() == 0 {
        None
    } else {
        match repeated_key(keys.drop_last()) {
            Some(key) => Some(key),
            None => if keys.drop_last().contains(keys.last()) {
                Some(keys.last())
            } else {
                None
            },
        }
    }
}

/// The limit on applications that a provider's share leaves.
pub open spec fn app_limit(max_apps: usize) -> usize {
    if max_apps < MAX_INVENTORY_APPS {
        max_apps
    } else {
        MAX_INVENTORY_APPS
    }
}

/// What a first look at an inventory found: its host, its error, and the number
/// of its applications.
#[derive(Debug)]
pub struct InventoryShape {
    pub host: String,
    pub error: Option<String>,
    pub apps: usize,
}

/// The complaint about more applications than a provider's share.
pub open spec fn share_fault(max_apps: usize) -> Seq<char> {
    "inventory has more than its fair-share limit of "@ + crate::text::decimal_text(
        app_limit(max_apps) as nat,
    ) + " applications"@
}

/// The complaint about an inventory after the first look.
pub open spec fn first_fault(shape: Result<InventoryShape, String>, max_apps: usize) -> Option<
    Seq<char>,
> {
    match shape {
        Err(complaint) => Some("unreadable inventory: "@ + complaint@),
        Ok(shape) => look_fault(
            shape.host@,
            crate::text::opt_text(shape.error),
            shape.apps as nat,
            max_apps,
        ),
    }
}

/// The complaint about what a first look found.
pub open spec fn look_fault(
    host: Seq<char>,
    error: Option<Seq<char>>,
    apps: nat,
    max_apps: usize,
) -> Option<Seq<char>> {
    if crate::text::byte_len(host) > MAX_INVENTORY_HOST_BYTES {
        Some(field_text("host"@, MAX_INVENTORY_HOST_BYTES))
    } else if error is Some && crate::text::byte_len(error->0) > MAX_INVENTORY_ERROR_BYTES {
        Some(field_text("error"@, MAX_INVENTORY_ERROR_BYTES))
    } else if apps > app_limit(max_apps) {
        Some(share_fault(max_apps))
    } else {
        None
    }
}

/// The complaint about a decoded inventory: that of a first look at it, or else
/// the one about it as a whole.
pub open spec fn whole_fault(inventory: Inventory, max_apps: usize) -> Option<Seq<char>> {
    match shape_fault(inventory.folders@) {
        Some(fault) => Some("unreadable inventory: "@ + fault),
        None => match look_fault(
            inventory.host@,
            crate::text::opt_text(inventory.error),
            total_apps(inventory.folders@),
            max_apps,
        ) {
            Some(fault) => Some(fault),
            None => inventory_fault(inventory, max_apps),
        },
    }
}

/// The complaint about what the JSON reader made of a provider's answer.
pub open spec fn decoded_fault(decoded: Result<Inventory, String>, max_apps: usize) -> Option<
    Seq<char>,
> {
    match decoded {
        Err(complaint) => Some("unreadable inventory: "@ + complaint@),
        Ok(inventory) => whole_fault(inventory, max_apps),
    }
}

/// The complaint about an inventory as a whole: the first bound that it breaks.
pub open spec fn inventory_fault(inventory: Inventory, max_apps: usize) -> Option<Seq<char>> {
    if inventory.folders@.len() > MAX_INVENTORY_FOLDERS {
        Some(count_text(MAX_INVENTORY_FOLDERS, " folders"@))
    } else if total_apps(inventory.folders@) > usize::MAX {
        Some("inventory application count overflowed"@)
    } else if total_apps(inventory.folders@) > app_limit(max_apps) {
        Some(share_fault(max_apps))
    } else {
        match repeated_key(app_keys(inventory.folders@)) {
            Some(key) => Some(
                "inventory contains duplicate application id "@ + crate::text::debug_text(key),
            ),
            None => None,
        }
    }
}

fn field_message(name: &str, limit: usize) -> (r: String)
    ensures
        r@ == field_text(name@, limit),
{
    let mut message = "inventory ".to_owned();
    message.append(name);
    message.append(" exceeds ");
    message.append(decimal(limit as u128).as_str());
    message.append(" bytes");
    message
}

fn count_message(limit: usize, what: &str) -> (r: String)
    ensures
        r@ == count_text(limit, what@),
{
    let mut message = "inventory has more than ".to_owned();
    message.append(decimal(limit as u128).as_str());
    message.append(what);
    message
}

/// The complaint about an application, if one of its fields is too long.
pub fn check_app(app: &InventoryApp) -> (r: Option<String>)
    ensures
        crate::text::opt_text(r) == app_fault(*app),
{
    if len_bytes(app.name.as_str()) > MAX_INVENTORY_APP_TEXT_BYTES {
        return Some(field_message("application name", MAX_INVENTORY_APP_TEXT_BYTES));
    }
    if len_bytes(app.icon.as_str()) > MAX_INVENTORY_APP_TEXT_BYTES {
        return Some(field_message("application icon", MAX_INVENTORY_APP_TEXT_BYTES));
    }
    if len_bytes(app.desktop_file.as_str()) > MAX_INVENTORY_APP_TEXT_BYTES {
        return Some(field_message("desktop file", MAX_INVENTORY_APP_TEXT_BYTES));
    }
    if let Some(id) = &app.id {
        if len_bytes(id.as_str()) > MAX_INVENTORY_APP_TEXT_BYTES {
            return Some(field_message("application id", MAX_INVENTORY_APP_TEXT_BYTES));
        }
    }
    if len_bytes(app.command.as_str()) > MAX_INVENTORY_EXEC_BYTES {
        return Some(field_message("application exec", MAX_INVENTORY_EXEC_BYTES));
    }
    None
}

proof fn apps_fault_stays(apps: Seq<InventoryApp>, n: int)
    requires
        0 <= n <= apps.len(),
        apps_fault(apps.take(n)) is Some,
    ensures
        apps_fault(apps) == apps_fault(apps.take(n)),
    decreases apps.len(),
{
    if n == apps.len() {
        assert(apps.take(n) =~= apps);
    } else {
        assert(apps.drop_last().take(n) =~= apps.take(n));
        apps_fault_stays(apps.drop_last(), n);
    }
}

proof fn apps_fault_none_bounds(apps: Seq<InventoryApp>)
    requires
        apps_fault(apps) is None,
    ensures
        apps.len() <= MAX_INVENTORY_APPS,
{
}

/// Counts one more application of a folder, and complains about it where one of
/// its fields is too long or it is one too many.
pub fn count_app(apps: &mut usize, app: &InventoryApp) -> (r: Option<String>)
    requires
        *old(apps) <= MAX_INVENTORY_APPS,
    ensures
        *final(apps) == *old(apps) + 1,
        crate::text::opt_text(r) == (match app_fault(*app) {
            Some(fault) => Some(fault),
            None => if *old(apps) + 1 > MAX_INVENTORY_APPS {
                Some(count_text(MAX_INVENTORY_APPS, " applications"@))
            } else {
                None
            },
        }),
{
    *apps = *apps + 1;
    if let Some(fault) = check_app(app) {
        return Some(fault);
    }
    if *apps > MAX_INVENTORY_APPS {
        return Some(count_message(MAX_INVENTORY_APPS, " applications"));
    }
    None
}

/// The folders and the applications that were counted.
#[derive(Debug)]
pub struct FolderCount {
    pub folders: usize,
    pub apps: usize,
}

/// The complaint about one more folder.
pub open spec fn folder_fault(count: FolderCount, label: Seq<char>, apps: usize) -> Option<
    Seq<char>,
> {
    if count.apps + apps > usize::MAX {
        Some("inventory application count overflowed"@)
    } else if crate::text::byte_len(label) > MAX_INVENTORY_FOLDER_BYTES {
        Some(field_text("folder label"@, MAX_INVENTORY_FOLDER_BYTES))
    } else if count.folders + 1 > MAX_INVENTORY_FOLDERS {
        Some(count_text(MAX_INVENTORY_FOLDERS, " folders"@))
    } else if count.apps + apps > MAX_INVENTORY_APPS {
        Some(count_text(MAX_INVENTORY_APPS, " applications"@))
    } else {
        None
    }
}

impl FolderCount {
    pub fn new() -> (r: Self)
        ensures
            r.folders == 0,
            r.apps == 0,
    {
        FolderCount { folders: 0, apps: 0 }
    }

    /// Counts one more folder with its applications, and complains about it where
    /// its label is too long, or it is one too many, or there are too many
    /// applications.
    pub fn count_folder(&mut self, label: &str, apps: usize) -> (r: Option<String>)
        requires
            old(self).folders <= MAX_INVENTORY_FOLDERS,
        ensures
            crate::text::opt_text(r) == folder_fault(*old(self), label@, apps),
            final(self).folders == old(self).folders + 1,
            final(self).apps == (if old(self).apps + apps <= usize::MAX {
                (old(self).apps + apps) as usize
            } else {
                old(self).apps
            }),
    {
        self.folders = self.folders + 1;
        match self.apps.checked_add(apps) {
            None => {
                return Some("inventory application count overflowed".to_owned());
            },
            Some(total) => {
                self.apps = total;
            },
        }
        if len_bytes(label) > MAX_INVENTORY_FOLDER_BYTES {
            return Some(field_message("folder label", MAX_INVENTORY_FOLDER_BYTES));
        }
        if self.folders > MAX_INVENTORY_FOLDERS {
            return Some(count_message(MAX_INVENTORY_FOLDERS, " folders"));
        }
        if self.apps > MAX_INVENTORY_APPS {
            return Some(count_message(MAX_INVENTORY_APPS, " applications"));
        }
        None
    }
}

fn check_apps(apps: &Vec<InventoryApp>) -> (r: Option<String>)
    ensures
        crate::text::opt_text(r) == apps_fault(apps@),
{
    let mut count: usize = 0;
    let mut i: usize = 0;
    while i < apps.len()
        invariant
            i <= apps.len(),
            count == i,
            count <= MAX_INVENTORY_APPS,
            apps_fault(apps@.take(i as int)) is None,
        decreases apps.len() - i,
    {
        assert(apps@.take(i + 1).drop_last() =~= apps@.take(i as int));
        if let Some(fault) = count_app(&mut count, &apps[i]) {
            proof {
                apps_fault_stays(apps@, i + 1);
            }
            return Some(fault);
        }
        i = i + 1;
    }
    assert(apps@.take(i as int) =~= apps@);
    None
}

proof fn shape_fault_stays(folders: Seq<InventoryFolder>, n: int)
    requires
        0 <= n <= folders.len(),
        shape_fault(folders.take(n)) is Some,
    ensures
        shape_fault(folders) == shape_fault(folders.take(n)),
    decreases folders.len(),
{
    if n == folders.len() {
        assert(folders.take(n) =~= folders);
    } else {
        assert(folders.drop_last().take(n) =~= folders.take(n));
        shape_fault_stays(folders.drop_last(), n);
    }
}

/// A first look at an inventory, folder by folder: the complaint about its shape,
/// or what was found.
pub fn inventory_shape(inventory: &Inventory) -> (r: Result<InventoryShape, String>)
    ensures
        match r {
            Ok(shape) => {
                &&& shape_fault(inventory.folders@) is None
                &&& shape.host@ == inventory.host@
                &&& crate::text::opt_text(shape.error) == crate::text::opt_text(inventory.error)
                &&& shape.apps == total_apps(inventory.folders@)
                &&& shape.apps <= MAX_INVENTORY_APPS
            },
            Err(fault) => shape_fault(inventory.folders@) == Some(fault@),
        },
{
    let folders = &inventory.folders;
    let mut count = FolderCount::new();
    let mut i: usize = 0;
    while i < folders.len()
        invariant
            i <= folders.len(),
            folders@ == inventory.folders@,
            count.folders == i,
            i <= MAX_INVENTORY_FOLDERS,
            count.apps == total_apps(folders@.take(i as int)),
            count.apps <= MAX_INVENTORY_APPS,
            shape_fault(folders@.take(i as int)) is None,
        decreases folders.len() - i,
    {
        let folder = &folders[i];
        let ghost next = folders@.take(i + 1);
        assert(next.drop_last() =~= folders@.take(i as int));
        assert(next.last() == *folder);
        if let Some(fault) = check_apps(&folder.apps) {
            proof {
                shape_fault_stays(folders@, i + 1);
            }
            return Err(fault);
        }
        proof {
            apps_fault_none_bounds(folder.apps@);
        }
        if let Some(fault) = count.count_folder(folder.label.as_str(), folder.apps.len()) {
            proof {
                shape_fault_stays(folders@, i + 1);
            }
            return Err(fault);
        }
        i = i + 1;
    }
    assert(folders@.take(i as int) =~= folders@);
    let error = match &inventory.error {
        Some(error) => Some(error.clone()),
        None => None,
    };
    Ok(InventoryShape { host: inventory.host.clone(), error, apps: count.apps })
}

proof fn repeated_key_stays(keys: Seq<Seq<char>>, n: int)
    requires
        0 <= n <= keys.len(),
        repeated_key(keys.take(n)) is Some,
    ensures
        repeated_key(keys) == repeated_key(keys.take(n)),
    decreases keys.len(),
{
    if n == keys.len() {
        assert(keys.take(n) =~= keys);
    } else {
        assert(keys.drop_last().take(n) =~= keys.take(n));
        repeated_key_stays(keys.drop_last(), n);
    }
}

proof fn app_keys_prefix(folders: Seq<InventoryFolder>, n: int)
    requires
        0 <= n <= folders.len(),
    ensures
        app_keys(folders.take(n)).len() <= app_keys(folders).len(),
        app_keys(folders).take(app_keys(folders.take(n)).len() as int) == app_keys(folders.take(n)),
    decreases folders.len(),
{
    if n == folders.len() {
        assert(folders.take(n) =~= folders);
        assert(app_keys(folders).take(app_keys(folders).len() as int) =~= app_keys(folders));
    } else {
        app_keys_prefix(folders.drop_last(), n);
        assert(folders.drop_last().take(n) =~= folders.take(n));
        let m = app_keys(folders.take(n)).len() as int;
        assert(app_keys(folders).take(m) =~= app_keys(folders.drop_last()).take(m));
    }
}

/// The first id that occurs a second time.
fn find_repeated_key(folders: &Vec<InventoryFolder>) -> (r: Option<String>)
    ensures
        crate::text::opt_text(r) == repeated_key(app_keys(folders@)),
{
    let mut seen: Vec<String> = Vec::new();
    let mut i: usize = 0;
    assert(crate::text::texts(seen@) =~= Seq::empty());
    while i < folders.len()
        invariant
            i <= folders.len(),
            crate::text::texts(seen@) == app_keys(folders@.take(i as int)),
            repeated_key(crate::text::texts(seen@)) is None,
        decreases folders.len() - i,
    {
        let apps = &folders[i].apps;
        let ghost before = app_keys(folders@.take(i as int));
        let ghost own = Seq::new(apps@.len(), |k: int| app_key(apps@[k]));
        let ghost next = app_keys(folders@.take(i + 1));
        proof {
            assert(folders@.take(i + 1).drop_last() =~= folders@.take(i as int));
            assert(folders@.take(i + 1).last().apps == *apps);
            assert(next =~= before + own);
            app_keys_prefix(folders@, i + 1);
        }
        let mut k: usize = 0;
        assert(before + own.take(0) =~= before);
        while k < apps.len()
            invariant
                k <= apps.len(),
                own == Seq::new(apps@.len(), |n: int| app_key(apps@[n])),
                next == before + own,
                next.len() <= app_keys(folders@).len(),
                app_keys(folders@).take(next.len() as int) == next,
                crate::text::texts(seen@) == before + own.take(k as int),
                repeated_key(crate::text::texts(seen@)) is None,
            decreases apps.len() - k,
        {
            let key = match &apps[k].id {
                Some(id) => id.clone(),
                None => apps[k].name.clone(),
            };
            let ghost keys = crate::text::texts(seen@);
            let ghost longer = keys.push(key@);
            proof {
                assert(own[k as int] == key@);
                assert(longer.drop_last() =~= keys);
                assert(longer =~= before + own.take(k + 1));
                assert(longer =~= app_keys(folders@).take(longer.len() as int)) by {
                    assert(app_keys(folders@).take(longer.len() as int) =~= next.take(
                        longer.len() as int,
                    ));
                }
            }
            if contains_text(&seen, key.as_str()) {
                proof {
                    repeated_key_stays(app_keys(folders@), longer.len() as int);
                }
                return Some(key);
            }
            seen.push(key);
            assert(crate::text::texts(seen@) =~= longer);
            k = k + 1;
        }
        assert(own.take(k as int) =~= own);
        i = i + 1;
    }
    assert(folders@.take(i as int) =~= folders@);
    None
}

fn share_message(max_apps: usize) -> (r: String)
    ensures
        r@ == share_fault(max_apps),
{
    let limit: usize = if max_apps < MAX_INVENTORY_APPS {
        max_apps
    } else {
        MAX_INVENTORY_APPS
    };
    let mut message = "inventory has more than its fair-share limit of ".to_owned();
    message.append(decimal(limit as u128).as_str());
    message.append(" applications");
    message
}

fn unreadable(complaint: &str) -> (r: String)
    ensures
        r@ == "unreadable inventory: "@ + complaint@,
{
    let mut message = "unreadable inventory: ".to_owned();
    message.append(complaint);
    message
}

/// The number of applications in all folders, if it fits.
fn count_all(folders: &Vec<InventoryFolder>) -> (r: Option<usize>)
    ensures
        match r {
            Some(total) => total == total_apps(folders@),
            None => total_apps(folders@) > usize::MAX,
        },
{
    let mut total: usize = 0;
    let mut i: usize = 0;
    while i < folders.len()
        invariant
            i <= folders.len(),
            total == total_apps(folders@.take(i as int)),
        decreases folders.len() - i,
    {
        assert(folders@.take(i + 1).drop_last() =~= folders@.take(i as int));
        proof {
            total_apps_grows(folders@, i + 1);
        }
        match total.checked_add(folders[i].apps.len()) {
            None => {
                return None;
            },
            Some(sum) => {
                total = sum;
            },
        }
        i = i + 1;
    }
    assert(folders@.take(i as int) =~= folders@);
    Some(total)
}

proof fn total_apps_grows(folders: Seq<InventoryFolder>, n: int)
    requires
        0 <= n <= folders.len(),
    ensures
        total_apps(folders.take(n)) <= total_apps(folders),
    decreases folders.len(),
{
    if n == folders.len() {
        assert(folders.take(n) =~= folders);
    } else {
        total_apps_grows(folders.drop_last(), n);
        assert(folders.take(n) =~= folders.drop_last().take(n));
    }
}

/// Judges a first look at a provider's bytes, before the whole of them is
/// decoded.
pub fn check_first_look(shape: &Result<InventoryShape, String>, max_apps: usize) -> (r: Result<
    (),
    String,
>)
    ensures
        match first_fault(*shape, max_apps) {
            Some(fault) => r is Err && r->Err_0@ == fault,
            None => r is Ok,
        },
{
    let shape = match shape {
        Err(complaint) => {
            return Err(unreadable(complaint.as_str()));
        },
        Ok(shape) => shape,
    };
    if len_bytes(shape.host.as_str()) > MAX_INVENTORY_HOST_BYTES {
        return Err(field_message("host", MAX_INVENTORY_HOST_BYTES));
    }
    if let Some(error) = &shape.error {
        if len_bytes(error.as_str()) > MAX_INVENTORY_ERROR_BYTES {
            return Err(field_message("error", MAX_INVENTORY_ERROR_BYTES));
        }
    }
    let limit: usize = if max_apps < MAX_INVENTORY_APPS {
        max_apps
    } else {
        MAX_INVENTORY_APPS
    };
    if shape.apps > limit {
        return Err(share_message(max_apps));
    }
    Ok(())
}

/// Judges an inventory that was decoded. It is looked at as its bytes were, so
/// that an inventory which is accepted keeps every bound, whatever the first look
/// at the bytes found.
pub fn check_inventory(decoded: Result<Inventory, String>, max_apps: usize) -> (r: Result<
    Inventory,
    String,
>)
    ensures
        match decoded_fault(decoded, max_apps) {
            Some(fault) => r is Err && r->Err_0@ == fault,
            None => r == decoded,
        },
{
    let inventory = match decoded {
        Err(complaint) => {
            return Err(unreadable(complaint.as_str()));
        },
        Ok(inventory) => inventory,
    };
    let shape = inventory_shape(&inventory);
    if let Err(fault) = check_first_look(&shape, max_apps) {
        return Err(fault);
    }
    if inventory.folders.len() > MAX_INVENTORY_FOLDERS {
        return Err(count_message(MAX_INVENTORY_FOLDERS, " folders"));
    }
    let limit: usize = if max_apps < MAX_INVENTORY_APPS {
        max_apps
    } else {
        MAX_INVENTORY_APPS
    };
    let apps: usize = match count_all(&inventory.folders) {
        None => {
            return Err("inventory application count overflowed".to_owned());
        },
        Some(apps) => apps,
    };
    if apps > limit {
        return Err(share_message(max_apps));
    }
    if let Some(key) = find_repeated_key(&inventory.folders) {
        let mut message = "inventory contains duplicate application id ".to_owned();
        message.append(debug_form(key.as_str()).as_str());
        return Err(message);
    }
    Ok(inventory)
}

/// The inventory of a provider within its share of applications. `shape` is what
/// a first look at the provider's bytes found, `decoded` what the JSON reader
/// made of them, each with its complaint where it failed.
pub fn parse_inventory_bounded(
    shape: Result<InventoryShape, String>,
    decoded: Result<Inventory, String>,
    max_apps: usize,
) -> (r: Result<Inventory, String>)
    ensures
        match first_fault(shape, max_apps) {
            Some(fault) => r is Err && r->Err_0@ == fault,
            None => match decoded_fault(decoded, max_apps) {
                Some(fault) => r is Err && r->Err_0@ == fault,
                None => r == decoded,
            },
        },
{
    match check_first_look(&shape, max_apps) {
        Err(fault) => Err(fault),
        Ok(()) => check_inventory(decoded, max_apps),
    }
}

/// The inventory of a provider within the bounds that hold for every provider.
pub fn parse_inventory(
    shape: Result<InventoryShape, String>,
    decoded: Result<Inventory, String>,
) -> (r: Result<Inventory, String>)
    ensures
        match first_fault(shape, MAX_INVENTORY_APPS) {
            Some(fault) => r is Err && r->Err_0@ == fault,
            None => match decoded_fault(decoded, MAX_INVENTORY_APPS) {
                Some(fault) => r is Err && r->Err_0@ == fault,
                None => r == decoded,
            },
        },
{
    parse_inventory_bounded(shape, decoded, MAX_INVENTORY_APPS)
}

proof fn no_repeated_key_is_distinct(keys: Seq<Seq<char>>)
    requires
        repeated_key(keys) is None,
    ensures
        keys.no_duplicates(),
    decreases keys.len(),
{
    if keys.len() > 0 {
        let before = keys.drop_last();
        no_repeated_key_is_distinct(before);
        assert forall|a: int, b: int|
            0 <= a < keys.len() && 0 <= b < keys.len() && a != b implies keys[a] != keys[b] by {
            if a < before.len() {
                assert(before[a] == keys[a]);
                assert(before.contains(before[a]));
            }
            if b < before.len() {
                assert(before[b] == keys[b]);
                assert(before.contains(before[b]));
            }
        }
    }
}

proof fn accepted_apps_are_bounded(apps: Seq<InventoryApp>, i: int)
    requires
        apps_fault(apps) is None,
        0 <= i < apps.len(),
    ensures
        app_fault(apps[i]) is None,
    decreases apps.len(),
{
    if i < apps.len() - 1 {
        accepted_apps_are_bounded(apps.drop_last(), i);
    }
}

proof fn accepted_folders_are_bounded(folders: Seq<InventoryFolder>, i: int)
    requires
        shape_fault(folders) is None,
        0 <= i < folders.len(),
    ensures
        apps_fault(folders[i].apps@) is None,
        crate::text::byte_len(folders[i].label@) <= MAX_INVENTORY_FOLDER_BYTES,
    decreases folders.len(),
{
    if i < folders.len() - 1 {
        accepted_folders_are_bounded(folders.drop_last(), i);
    }
}

/// An accepted inventory keeps its provider's share of applications, and no two
/// of its applications have the same id.
pub proof fn accepted_inventory_keeps_its_share(inventory: Inventory, max_apps: usize)
    requires
        whole_fault(inventory, max_apps) is None,
    ensures
        total_apps(inventory.folders@) <= max_apps,
        total_apps(inventory.folders@) <= MAX_INVENTORY_APPS,
        inventory.folders@.len() <= MAX_INVENTORY_FOLDERS,
        app_keys(inventory.folders@).no_duplicates(),
{
    no_repeated_key_is_distinct(app_keys(inventory.folders@));
}

/// Whether every text of an application is within its bound.
pub open spec fn app_within_bounds(app: InventoryApp) -> bool {
    &&& crate::text::byte_len(app.name@) <= MAX_INVENTORY_APP_TEXT_BYTES
    &&& crate::text::byte_len(app.icon@) <= MAX_INVENTORY_APP_TEXT_BYTES
    &&& crate::text::byte_len(app.desktop_file@) <= MAX_INVENTORY_APP_TEXT_BYTES
    &&& app.id is Some ==> crate::text::byte_len(app.id->0@) <= MAX_INVENTORY_APP_TEXT_BYTES
    &&& crate::text::byte_len(app.command@) <= MAX_INVENTORY_EXEC_BYTES
}

/// Every text of an accepted inventory is within its bound: the host, the error,
/// each label, and each field of each application.
pub proof fn accepted_inventory_keeps_its_lengths(inventory: Inventory, max_apps: usize)
    requires
        whole_fault(inventory, max_apps) is None,
    ensures
        crate::text::byte_len(inventory.host@) <= MAX_INVENTORY_HOST_BYTES,
        inventory.error is Some ==> crate::text::byte_len(inventory.error->0@)
            <= MAX_INVENTORY_ERROR_BYTES,
        forall|i: int|
            0 <= i < inventory.folders@.len() ==> crate::text::byte_len(
                (#[trigger] inventory.folders@[i]).label@,
            ) <= MAX_INVENTORY_FOLDER_BYTES,
        forall|i: int, j: int|
            0 <= i < inventory.folders@.len() && 0 <= j < inventory.folders@[i].apps@.len()
                ==> app_within_bounds(#[trigger] inventory.folders@[i].apps@[j]),
{
    let folders = inventory.folders@;
    assert forall|i: int| 0 <= i < folders.len() implies crate::text::byte_len(
        (#[trigger] folders[i]).label@,
    ) <= MAX_INVENTORY_FOLDER_BYTES by {
        accepted_folders_are_bounded(folders, i);
    }
    assert forall|i: int, j: int|
        0 <= i < folders.len() && 0 <= j < folders[i].apps@.len() implies app_within_bounds(
        #[trigger] folders[i].apps@[j],
    ) by {
        accepted_folders_are_bounded(folders, i);
        accepted_apps_are_bounded(folders[i].apps@, j);
    }
}

/// An application is accepted exactly if its texts keep their bounds: four
/// kilobytes each, sixty-four for the command line.
pub proof fn bounds_of_an_application(app: InventoryApp)
    ensures
        app_fault(app) is None <==> crate::text::byte_len(app.name@) <= 4096
            && crate::text::byte_len(app.icon@) <= 4096 && crate::text::byte_len(app.desktop_file@)
            <= 4096 && (app.id is Some ==> crate::text::byte_len(app.id->0@) <= 4096)
            && crate::text::byte_len(app.command@) <= 65536,
        app_key(app) == (if app.id is Some {
            app.id->0@
        } else {
            app.name@
        }),
{
}

proof fn bounded_apps_are_accepted(apps: Seq<InventoryApp>)
    requires
        apps.len() <= 4096,
        forall|i: int| 0 <= i < apps.len() ==> app_fault(#[trigger] apps[i]) is None,
    ensures
        apps_fault(apps) is None,
    decreases apps.len(),
{
    if apps.len() > 0 {
        let fewer = apps.drop_last();
        assert forall|i: int| 0 <= i < fewer.len() implies app_fault(#[trigger] fewer[i])
            is None by {
            assert(fewer[i] == apps[i]);
        }
        bounded_apps_are_accepted(fewer);
        assert(app_fault(apps[apps.len() - 1]) is None);
    }
}

proof fn bounded_folders_are_accepted(folders: Seq<InventoryFolder>)
    requires
        folders.len() <= 1024,
        total_apps(folders) <= 4096,
        forall|i: int|
            0 <= i < folders.len() ==> crate::text::byte_len((#[trigger] folders[i]).label@)
                <= 1024,
        forall|i: int, j: int|
            0 <= i < folders.len() && 0 <= j < folders[i].apps@.len() ==> app_fault(
                #[trigger] folders[i].apps@[j],
            ) is None,
    ensures
        shape_fault(folders) is None,
    decreases folders.len(),
{
    if folders.len() > 0 {
        let fewer = folders.drop_last();
        let n = fewer.len() as int;
        assert forall|i: int| 0 <= i < n implies #[trigger] fewer[i] == folders[i] by {}
        assert forall|i: int, j: int|
            0 <= i < fewer.len() && 0 <= j < fewer[i].apps@.len() implies app_fault(
            #[trigger] fewer[i].apps@[j],
        ) is None by {
            assert(app_fault(folders[i].apps@[j]) is None);
        }
        bounded_folders_are_accepted(fewer);
        let last = folders.last();
        assert(last == folders[n]);
        assert forall|j: int| 0 <= j < last.apps@.len() implies app_fault(#[trigger] last.apps@[j])
            is None by {
            assert(app_fault(folders[n].apps@[j]) is None);
        }
        bounded_apps_are_accepted(last.apps@);
    }
}

proof fn distinct_keys_are_not_repeated(keys: Seq<Seq<char>>)
    requires
        keys.no_duplicates(),
    ensures
        repeated_key(keys) is None,
    decreases keys.len(),
{
    if keys.len() > 0 {
        let before = keys.drop_last();
        assert forall|a: int, b: int|
            0 <= a < before.len() && 0 <= b < before.len() && a != b implies before[a]
            != before[b] by {
            assert(keys[a] != keys[b]);
        }
        distinct_keys_are_not_repeated(before);
        if before.contains(keys.last()) {
            let k = choose|k: int| 0 <= k < before.len() && before[k] == keys.last();
            assert(keys[k] != keys[keys.len() - 1]);
        }
    }
}

/// An inventory that keeps every bound, and its provider's share, and whose
/// applications have ids of their own is accepted.
pub proof fn bounded_inventory_is_accepted(inventory: Inventory, max_apps: usize)
    requires
        inventory.folders@.len() <= 1024,
        total_apps(inventory.folders@) <= 4096,
        total_apps(inventory.folders@) <= max_apps,
        crate::text::byte_len(inventory.host@) <= 1024,
        inventory.error is Some ==> crate::text::byte_len(inventory.error->0@) <= 65536,
        forall|i: int|
            0 <= i < inventory.folders@.len() ==> crate::text::byte_len(
                (#[trigger] inventory.folders@[i]).label@,
            ) <= 1024,
        forall|i: int, j: int|
            0 <= i < inventory.folders@.len() && 0 <= j < inventory.folders@[i].apps@.len()
                ==> app_within_bounds(#[trigger] inventory.folders@[i].apps@[j]),
        app_keys(inventory.folders@).no_duplicates(),
    ensures
        whole_fault(inventory, max_apps) is None,
        decoded_fault(Ok::<Inventory, String>(inventory), max_apps) is None,
{
    let folders = inventory.folders@;
    assert forall|i: int, j: int|
        0 <= i < folders.len() && 0 <= j < folders[i].apps@.len() implies app_fault(
        #[trigger] folders[i].apps@[j],
    ) is None by {
        assert(app_within_bounds(inventory.folders@[i].apps@[j]));
    }
    bounded_folders_are_accepted(folders);
    distinct_keys_are_not_repeated(app_keys(folders));
}

/// An inventory that could not be decoded is never accepted, and what is wrong
/// with it is told.
pub proof fn undecoded_inventory_is_refused(complaint: String, max_apps: usize)
    ensures
        decoded_fault(Err::<Inventory, String>(complaint), max_apps) == Some(
            "unreadable inventory: "@ + complaint@,
        ),
        first_fault(Err::<InventoryShape, String>(complaint), max_apps) == Some(
            "unreadable inventory: "@ + complaint@,
        ),
{
}

/// The applications of all folders count, and each has its key, folder by folder
/// and in order.
pub proof fn applications_count_folder_by_folder(
    folders: Seq<InventoryFolder>,
    folder: InventoryFolder,
    j: int,
)
    ensures
        total_apps(Seq::empty()) == 0,
        total_apps(folders.push(folder)) == total_apps(folders) + folder.apps@.len(),
        app_keys(folders).len() == total_apps(folders),
        app_keys(folders.push(folder)).take(app_keys(folders).len() as int) == app_keys(folders),
        0 <= j < folder.apps@.len() ==> app_keys(folders.push(folder))[app_keys(folders).len() + j]
            == app_key(folder.apps@[j]),
{
    assert(folders.push(folder).drop_last() =~= folders);
    assert(app_keys(folders.push(folder)).take(app_keys(folders).len() as int) =~= app_keys(
        folders,
    ));
    keys_count(folders);
}

proof fn keys_count(folders: Seq<InventoryFolder>)
    ensures
        app_keys(folders).len() == total_apps(folders),
    decreases folders.len(),
{
    if folders.len() > 0 {
        keys_count(folders.drop_last());
    }
}

/// A first look at an inventory refuses it exactly if its host or its error is too
/// long, or it has more applications than its share.
pub proof fn first_look_at_an_inventory(shape: InventoryShape, max_apps: usize)
    ensures
        first_fault(Ok::<InventoryShape, String>(shape), max_apps) is None
            <==> crate::text::byte_len(shape.host@) <= 1024 && (shape.error is Some
            ==> crate::text::byte_len(shape.error->0@) <= 65536) && shape.apps <= max_apps
            && shape.apps <= 4096,
{
}

/// A folder is counted in exactly if its label is short enough and neither the
/// folders nor the applications are too many with it.
pub proof fn counting_folders(count: FolderCount, label: Seq<char>, apps: usize)
    ensures
        folder_fault(count, label, apps) is None <==> crate::text::byte_len(label) <= 1024
            && count.folders < 1024 && count.apps + apps <= 4096,
{
}

/// What is said of a text or a number that is too large names it and its limit.
pub proof fn limits_are_named(name: Seq<char>, limit: usize, what: Seq<char>, max_apps: usize)
    ensures
        field_text(name, limit) == "inventory "@ + name + " exceeds "@ + crate::text::decimal_text(
            limit as nat,
        ) + " bytes"@,
        count_text(limit, what) == "inventory has more than "@ + crate::text::decimal_text(
            limit as nat,
        ) + what,
        max_apps <= 4096 ==> share_fault(max_apps)
            == "inventory has more than its fair-share limit of "@ + crate::text::decimal_text(
            max_apps as nat,
        ) + " applications"@,
{
}

/// An application that is given twice is refused, whatever folders it is in; the
/// first repetition is told.
pub proof fn repetitions_are_refused(keys: Seq<Seq<char>>, i: int, j: int)
    requires
        0 <= i < j < keys.len(),
        keys[i] == keys[j],
        keys.take(j).no_duplicates(),
    ensures
        repeated_key(keys) == Some(keys[j]),
    decreases keys.len(),
{
    let before = keys.drop_last();
    if j < before.len() {
        assert(before.take(j) =~= keys.take(j));
        repetitions_are_refused(before, i, j);
    } else {
        assert(before =~= keys.take(j));
        distinct_keys_are_not_repeated(before);
        assert(before[i] == keys[i]);
        assert(before.contains(keys.last()));
    }
}

} // verus!
