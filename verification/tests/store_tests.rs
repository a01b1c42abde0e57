use billsplit::bill::{Bill, BillWithId};
use billsplit::config::Config;
use billsplit::data::{Data, DataProvider};
use billsplit::error::BillError;
use billsplit::memory::Memory;

#[test]
fn memory_test_add_bill() {
    let mut data = Memory::new();
    let bill = Bill::new("test".to_string());
    let id = data.add_bill(&bill);
    assert_eq!(data.get_bill(id).unwrap(), bill);
}

#[test]
fn memory_test_delete_bill() {
    let mut data = Memory::new();
    let bill = Bill::new("test".to_string());
    let id = data.add_bill(&bill);
    assert_eq!(data.delete_bill(id), Ok(id));
    let err = data.delete_bill(id).unwrap_err();
    assert_eq!(err, BillError::NotFound);
    assert_eq!(err.message(), "Bill not found".to_string());
}

#[test]
fn memory_test_get_bill() {
    let mut data = Memory::new();
    let bill = Bill::new("test".to_string());
    let id = data.add_bill(&bill);
    assert_eq!(data.get_bill(id).unwrap(), bill);
}

#[test]
fn memory_test_get_bills() {
    let mut data = Memory::new();
    let bill = Bill::new("test".to_string());
    let id = data.add_bill(&bill);
    let bills = data.get_bills();
    let bill_with_id = BillWithId { id, bill };
    assert_eq!(bills.contains(&bill_with_id), true);
}

#[test]
fn test_update_bill() {
    let mut data = Memory::new();
    let bill = Bill::new("test".to_string());
    let id = data.add_bill(&bill);
    let bill = Bill::new("test2".to_string());
    assert_eq!(data.update_bill(id, &bill), Ok(id));
    assert_eq!(data.get_bill(id).unwrap(), bill);
}

#[test]
fn test_update_absent_bill_fails() {
    let mut data = Memory::new();
    let bill = Bill::new("test".to_string());
    assert_eq!(data.update_bill(7, &bill), Err(BillError::NotFound));
    assert_eq!(data.get_bills().len(), 0);
}

#[test]
fn test_added_bills_get_distinct_ids() {
    let mut data = Memory::new();
    let mut ids = Vec::new();
    for k in 0..10 {
        let bill = Bill::new(format!("bill{}", k));
        ids.push(data.add_bill(&bill));
    }
    for i in 0..ids.len() {
        for j in 0..i {
            assert_ne!(ids[i], ids[j]);
        }
    }
    assert_eq!(data.get_bills().len(), 10);
}

#[test]
fn test_delete_then_get() {
    let mut data = Memory::new();
    let bill = Bill::new("test".to_string());
    let id = data.add_bill(&bill);
    assert_eq!(data.delete_bill(id), Ok(id));
    assert!(data.get_bill(id).is_none());
    assert_eq!(data.delete_bill(id), Err(BillError::NotFound));
}

#[test]
fn test_provider_dispatches_to_memory() {
    let mut provider = DataProvider::Memory(Memory::new());
    let bill = Bill::new("test".to_string());
    let id = provider.add_bill(&bill);
    assert_eq!(provider.get_bill(id).unwrap(), bill);
    assert_eq!(provider.get_bills().len(), 1);
    assert_eq!(provider.delete_bill(id), Ok(id));
    assert!(provider.get_bill(id).is_none());
}

#[test]
fn test_default_config() {
    let config = Config::new();
    assert_eq!(config.app.host, "0.0.0.0");
    assert_eq!(config.app.port, 3000);
    assert_eq!(config.data.provider.get_bills().len(), 0);
}

#[test]
fn test_invalid_id_message() {
    assert_eq!(BillError::InvalidId.message(), "Invalid UUID".to_string());
}
